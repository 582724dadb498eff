//! The static resolver: a single pre-execution pass over the syntax tree
//! that computes, for every variable reference and assignment, how many
//! lexical scopes separate the use from the declaration, and flags the
//! semantic errors the pass can see: a variable read in its own
//! initializer, two declarations of one name in one local scope, and
//! `return` outside any function.
//!
//! Top-level names are deliberately not tracked: references that no local
//! scope binds get no table entry and resolve against the global frame at
//! run time.
//!
//! The pass is a pure function of the syntax tree, stated by the
//! `resolve_*_s` spec functions; the executable resolver is proved to
//! compute exactly that function, and [`lemma_resolution_idempotent`]
//! shows that re-running the pass leaves the binding table, read as a
//! lookup table, unchanged.

use vstd::prelude::*;

use crate::ast::{expr_size, exprs_size, stmt_size, stmts_size, Expr, Stmt};
use crate::errors::{ResolveError, ResolveErrorV};
use crate::token::Token;

verus! {

/// What the resolver is currently inside of; `return` is legal only
/// inside a function.
#[derive(Clone, Copy, PartialEq, Eq, Structural, Debug)]
pub enum FunctionKind {
    TopLevel,
    Function,
}

/// The resolver's state: a stack of scopes, each mapping a name to
/// whether its initializer has finished (declared vs. defined); the
/// current function kind; the binding table built so far; and the errors
/// reported so far.
pub struct Resolver {
    pub scopes: Vec<Vec<(String, bool)>>,
    pub current_function: FunctionKind,
    pub locals: Vec<(u64, usize)>,
    pub errors: Vec<ResolveError>,
}

/// Model of the resolver's state.
#[verifier::ext_equal]
pub struct ResolverV {
    pub scopes: Seq<Seq<(String, bool)>>,
    pub in_function: bool,
    pub binds: Seq<(u64, usize)>,
    pub errs: Seq<ResolveErrorV>,
}

/// The models of a list of reported errors.
pub open spec fn errs_view(es: Seq<ResolveError>) -> Seq<ResolveErrorV> {
    es.map_values(|e: ResolveError| e@)
}

/// The models of a stack of scopes.
pub open spec fn scopes_view(s: Seq<Vec<(String, bool)>>) -> Seq<Seq<(String, bool)>> {
    s.map_values(|v: Vec<(String, bool)>| v@)
}

impl View for Resolver {
    type V = ResolverV;

    open spec fn view(&self) -> ResolverV {
        ResolverV {
            scopes: scopes_view(self.scopes@),
            in_function: self.current_function is Function,
            binds: self.locals@,
            errs: errs_view(self.errors@),
        }
    }
}

/// The flag one scope records for a name: the latest entry wins; `None`
/// where the scope does not mention the name.
pub open spec fn scope_get(sc: Seq<(String, bool)>, k: Seq<char>) -> Option<bool>
    decreases sc.len(),
{
    if sc.len() == 0 {
        None
    } else if sc.last().0@ == k {
        Some(sc.last().1)
    } else {
        scope_get(sc.drop_last(), k)
    }
}

/// The number of scopes between the innermost scope and the innermost
/// scope that mentions `k`: 0 when the innermost scope itself does.
/// `None` where no scope does, deferring the name to the global frame.
pub open spec fn find_depth(scopes: Seq<Seq<(String, bool)>>, k: Seq<char>) -> Option<int>
    decreases scopes.len(),
{
    if scopes.len() == 0 {
        None
    } else if scope_get(scopes.last(), k) is Some {
        Some(0)
    } else {
        match find_depth(scopes.drop_last(), k) {
            Some(d) => Some(d + 1),
            None => None,
        }
    }
}

/// The distance recorded for a node identity: the latest entry wins.
pub open spec fn tbl_get(binds: Seq<(u64, usize)>, id: u64) -> Option<usize>
    decreases binds.len(),
{
    if binds.len() == 0 {
        None
    } else if binds.last().0 == id {
        Some(binds.last().1)
    } else {
        tbl_get(binds.drop_last(), id)
    }
}

/// Declaring a name: mark it not-yet-defined in the innermost scope,
/// reporting a duplicate declaration first. At top level (no scope) this
/// does nothing.
pub open spec fn rs_declare(st: ResolverV, tok: Token) -> ResolverV {
    if st.scopes.len() == 0 {
        st
    } else {
        let sc = st.scopes.last();
        let errs = if scope_get(sc, tok.lexeme@) is Some {
            st.errs.push(
                ResolveErrorV::DuplicateDeclaration { line: tok.line as nat, name: tok.lexeme@ },
            )
        } else {
            st.errs
        };
        ResolverV {
            scopes: st.scopes.update(st.scopes.len() - 1, sc.push((tok.lexeme, false))),
            errs,
            ..st
        }
    }
}

/// Defining a name: mark its initializer finished in the innermost scope.
pub open spec fn rs_define(st: ResolverV, tok: Token) -> ResolverV {
    if st.scopes.len() == 0 {
        st
    } else {
        let sc = st.scopes.last();
        ResolverV {
            scopes: st.scopes.update(st.scopes.len() - 1, sc.push((tok.lexeme, true))),
            ..st
        }
    }
}

/// Recording a use of a name: the innermost scope that mentions it gives
/// the distance; a name no scope mentions gets no entry.
pub open spec fn rs_resolve_local(st: ResolverV, k: Seq<char>, id: u64) -> ResolverV {
    match find_depth(st.scopes, k) {
        Some(d) => ResolverV { binds: st.binds.push((id, d as usize)), ..st },
        None => st,
    }
}

/// The check a variable read performs first: reading a name the innermost
/// scope has declared but not yet defined is the self-referential
/// initializer error.
pub open spec fn rs_var_check(st: ResolverV, tok: Token) -> ResolverV {
    if st.scopes.len() > 0 && scope_get(st.scopes.last(), tok.lexeme@) == Some(false) {
        ResolverV {
            errs: st.errs.push(
                ResolveErrorV::SelfReferentialInitializer {
                    line: tok.line as nat,
                    name: tok.lexeme@,
                },
            ),
            ..st
        }
    } else {
        st
    }
}

/// A pushed, empty innermost scope.
pub open spec fn rs_push(st: ResolverV) -> ResolverV {
    ResolverV { scopes: st.scopes.push(Seq::empty()), ..st }
}

/// The innermost scope popped.
pub open spec fn rs_pop(st: ResolverV) -> ResolverV {
    ResolverV { scopes: st.scopes.drop_last(), ..st }
}

/// Resolution of one expression.
pub open spec fn resolve_expr_s(st: ResolverV, e: Expr) -> ResolverV
    decreases expr_size(e), 0int,
{
    match e {
        Expr::Literal { .. } => st,
        Expr::Grouping { expression } => resolve_expr_s(st, *expression),
        Expr::Unary { right, .. } => resolve_expr_s(st, *right),
        Expr::Binary { left, right, .. } => resolve_expr_s(resolve_expr_s(st, *left), *right),
        Expr::Logical { left, right, .. } => resolve_expr_s(resolve_expr_s(st, *left), *right),
        Expr::Variable { name, id } => rs_resolve_local(rs_var_check(st, name), name.lexeme@, id),
        Expr::Assign { name, id, value } => rs_resolve_local(
            resolve_expr_s(st, *value),
            name.lexeme@,
            id,
        ),
        Expr::Call { callee, arguments, .. } => resolve_exprs_s(
            resolve_expr_s(st, *callee),
            arguments@,
        ),
    }
}

/// Resolution of a list of expressions, left to right.
pub open spec fn resolve_exprs_s(st: ResolverV, es: Seq<Expr>) -> ResolverV
    decreases exprs_size(es), 0int,
{
    if es.len() == 0 {
        st
    } else {
        resolve_exprs_s(resolve_expr_s(st, es[0]), es.drop_first())
    }
}

/// Resolution of one statement.
pub open spec fn resolve_stmt_s(st: ResolverV, s: Stmt) -> ResolverV
    decreases stmt_size(s), 0int,
{
    match s {
        Stmt::Expression { expression } => resolve_expr_s(st, expression),
        Stmt::Print { expression } => resolve_expr_s(st, expression),
        Stmt::Var { name, initializer } => {
            let st1 = rs_declare(st, name);
            let st2 = match initializer {
                Some(e) => resolve_expr_s(st1, e),
                None => st1,
            };
            rs_define(st2, name)
        },
        Stmt::Block { statements } => rs_pop(resolve_stmts_s(rs_push(st), statements@)),
        Stmt::If { condition, then_branch, else_branch } => {
            let st1 = resolve_stmt_s(resolve_expr_s(st, condition), *then_branch);
            match else_branch {
                Some(e) => resolve_stmt_s(st1, *e),
                None => st1,
            }
        },
        Stmt::While { condition, body } => resolve_stmt_s(resolve_expr_s(st, condition), *body),
        Stmt::Function { name, params, body } => rs_function(
            rs_define(rs_declare(st, name), name),
            params@,
            body@,
        ),
        Stmt::Return { keyword, value } => {
            let st1 = if !st.in_function {
                ResolverV {
                    errs: st.errs.push(
                        ResolveErrorV::ReturnOutsideFunction { line: keyword.line as nat },
                    ),
                    ..st
                }
            } else {
                st
            };
            match value {
                Some(e) => resolve_expr_s(st1, e),
                None => st1,
            }
        },
    }
}

/// Resolution of a list of statements, in order. Errors do not stop the
/// pass.
pub open spec fn resolve_stmts_s(st: ResolverV, ss: Seq<Stmt>) -> ResolverV
    decreases stmts_size(ss), 0int,
{
    if ss.len() == 0 {
        st
    } else {
        resolve_stmts_s(resolve_stmt_s(st, ss[0]), ss.drop_first())
    }
}

/// Resolution of a function body: a fresh scope seeded with the
/// parameters, resolved under an elevated function kind, which is
/// restored afterwards.
pub open spec fn rs_function(st: ResolverV, ps: Seq<Token>, body: Seq<Stmt>) -> ResolverV
    decreases ps.len() + stmts_size(body), 2int,
{
    let entered = ResolverV { in_function: true, ..rs_push(st) };
    let seeded = rs_params(entered, ps);
    let resolved = resolve_stmts_s(seeded, body);
    ResolverV { in_function: st.in_function, ..rs_pop(resolved) }
}

/// Declares and defines each parameter in the current scope, in order.
pub open spec fn rs_params(st: ResolverV, ps: Seq<Token>) -> ResolverV
    decreases ps.len(), 1int,
{
    if ps.len() == 0 {
        st
    } else {
        rs_params(rs_define(rs_declare(st, ps[0]), ps[0]), ps.drop_first())
    }
}

/// The resolver's starting state: no scopes, top level, empty table, no
/// errors.
pub open spec fn initial_resolver() -> ResolverV {
    ResolverV {
        scopes: Seq::empty(),
        in_function: false,
        binds: Seq::empty(),
        errs: Seq::empty(),
    }
}

/// How the resolver's model indexes into its backing vectors.
pub proof fn lemma_resolver_view(r: Resolver)
    ensures
        r@.scopes.len() == r.scopes@.len(),
        forall|j: int| 0 <= j < r.scopes@.len() ==> #[trigger] r@.scopes[j] == r.scopes@[j]@,
        r@.errs.len() == r.errors@.len(),
        forall|j: int| 0 <= j < r.errors@.len() ==> #[trigger] r@.errs[j] == r.errors@[j]@,
{
}

/// Every element weighs less than its whole list.
pub proof fn lemma_exprs_size_elem(es: Seq<Expr>, i: int)
    requires
        0 <= i < es.len(),
    ensures
        expr_size(es[i]) < exprs_size(es),
    decreases es.len(),
{
    if i > 0 {
        lemma_exprs_size_elem(es.drop_first(), i - 1);
    }
}

/// Every element weighs less than its whole list.
pub proof fn lemma_stmts_size_elem(ss: Seq<Stmt>, i: int)
    requires
        0 <= i < ss.len(),
    ensures
        stmt_size(ss[i]) < stmts_size(ss),
    decreases ss.len(),
{
    if i > 0 {
        lemma_stmts_size_elem(ss.drop_first(), i - 1);
    }
}

/// Looks a name up in one scope: the latest entry wins.
fn scope_lookup(sc: &Vec<(String, bool)>, name: &String) -> (r: Option<bool>)
    ensures
        r == scope_get(sc@, name@),
{
    let ghost es = sc@;
    let mut i: usize = sc.len();
    proof {
        assert(es.take(i as int) =~= es);
    }
    while i > 0
        invariant
            i <= es.len(),
            es == sc@,
            scope_get(es, name@) == scope_get(es.take(i as int), name@),
        decreases i,
    {
        i = i - 1;
        proof {
            assert(es.take(i + 1).drop_last() =~= es.take(i as int));
            assert(es.take(i + 1).last() == es[i as int]);
        }
        if sc[i].0 == *name {
            return Some(sc[i].1);
        }
    }
    proof {
        assert(es.take(0) =~= Seq::<(String, bool)>::empty());
    }
    None
}

impl Resolver {
    /// A fresh resolver: no scopes, top level, empty table, no errors.
    pub fn new() -> (r: Resolver)
        ensures
            r@ == initial_resolver(),
    {
        let r = Resolver {
            scopes: Vec::new(),
            current_function: FunctionKind::TopLevel,
            locals: Vec::new(),
            errors: Vec::new(),
        };
        proof {
            assert(r@.scopes =~= initial_resolver().scopes);
            assert(r@.errs =~= initial_resolver().errs);
            assert(r@ =~= initial_resolver());
        }
        r
    }

    fn begin_scope(&mut self)
        ensures
            final(self)@ == rs_push(old(self)@),
    {
        self.scopes.push(Vec::new());
        proof {
            assert(self@.scopes =~= rs_push(old(self)@).scopes);
            assert(self@ =~= rs_push(old(self)@));
        }
    }

    fn end_scope(&mut self)
        requires
            old(self)@.scopes.len() > 0,
        ensures
            final(self)@ == rs_pop(old(self)@),
    {
        proof {
            lemma_resolver_view(*self);
        }
        let _ = self.scopes.pop();
        proof {
            assert(self@.scopes =~= rs_pop(old(self)@).scopes);
            assert(self@ =~= rs_pop(old(self)@));
        }
    }

    fn declare(&mut self, name: &Token)
        ensures
            final(self)@ == rs_declare(old(self)@, *name),
    {
        proof {
            lemma_resolver_view(*self);
        }
        let n = self.scopes.len();
        if n == 0 {
            return;
        }
        let dup = scope_lookup(&self.scopes[n - 1], &name.lexeme).is_some();
        if dup {
            self.errors.push(
                ResolveError::DuplicateDeclaration { line: name.line, name: name.lexeme.clone() },
            );
            proof {
                lemma_resolver_view(*self);
                assert(self@.errs =~= old(self)@.errs.push(
                    ResolveErrorV::DuplicateDeclaration {
                        line: name.line as nat,
                        name: name.lexeme@,
                    },
                ));
            }
        }
        self.scopes[n - 1].push((name.lexeme.clone(), false));
        proof {
            lemma_resolver_view(*self);
            assert(self@.scopes =~= rs_declare(old(self)@, *name).scopes);
            assert(self@ =~= rs_declare(old(self)@, *name));
        }
    }

    fn define(&mut self, name: &Token)
        ensures
            final(self)@ == rs_define(old(self)@, *name),
    {
        proof {
            lemma_resolver_view(*self);
        }
        let n = self.scopes.len();
        if n == 0 {
            return;
        }
        self.scopes[n - 1].push((name.lexeme.clone(), true));
        proof {
            lemma_resolver_view(*self);
            assert(self@.scopes =~= rs_define(old(self)@, *name).scopes);
            assert(self@ =~= rs_define(old(self)@, *name));
        }
    }

    fn resolve_local(&mut self, name: &Token, id: u64)
        ensures
            final(self)@ == rs_resolve_local(old(self)@, name.lexeme@, id),
    {
        proof {
            lemma_resolver_view(*self);
        }
        let ghost stack = self@.scopes;
        let mut i: usize = self.scopes.len();
        proof {
            assert(stack.take(i as int) =~= stack);
        }
        while i > 0
            invariant
                i <= self.scopes@.len(),
                self@ == old(self)@,
                self@.scopes == stack,
                self@.scopes.len() == self.scopes@.len(),
                forall|j: int| 0 <= j < self.scopes@.len() ==> #[trigger] self@.scopes[j]
                    == self.scopes@[j]@,
                find_depth(stack, name.lexeme@) == match find_depth(
                    stack.take(i as int),
                    name.lexeme@,
                ) {
                    Some(d) => Some(d + (stack.len() - i)),
                    None => None::<int>,
                },
            decreases i,
        {
            i = i - 1;
            proof {
                assert(stack.take(i + 1).drop_last() =~= stack.take(i as int));
                assert(stack.take(i + 1).last() == stack[i as int]);
            }
            match scope_lookup(&self.scopes[i], &name.lexeme) {
                Some(_) => {
                    let d = self.scopes.len() - 1 - i;
                    self.locals.push((id, d));
                    proof {
                        assert(find_depth(stack, name.lexeme@) == Some(d as int));
                        assert(self@.binds =~= rs_resolve_local(
                            old(self)@,
                            name.lexeme@,
                            id,
                        ).binds);
                        assert(self@ =~= rs_resolve_local(old(self)@, name.lexeme@, id));
                    }
                    return;
                },
                None => {
                },
            }
        }
        proof {
            assert(stack.take(0) =~= Seq::<Seq<(String, bool)>>::empty());
            assert(find_depth(stack, name.lexeme@) is None);
        }
    }

    /// The self-referential-initializer check a variable read performs.
    fn check_var_read(&mut self, name: &Token)
        ensures
            final(self)@ == rs_var_check(old(self)@, *name),
    {
        proof {
            lemma_resolver_view(*self);
        }
        let n = self.scopes.len();
        if n == 0 {
            return;
        }
        match scope_lookup(&self.scopes[n - 1], &name.lexeme) {
            Some(false) => {
                self.errors.push(
                    ResolveError::SelfReferentialInitializer {
                        line: name.line,
                        name: name.lexeme.clone(),
                    },
                );
                proof {
                    lemma_resolver_view(*self);
                    assert(self@.errs =~= rs_var_check(old(self)@, *name).errs);
                    assert(self@ =~= rs_var_check(old(self)@, *name));
                }
            },
            _ => {
            },
        }
    }

    fn resolve_expr(&mut self, e: &Expr)
        ensures
            final(self)@ == resolve_expr_s(old(self)@, *e),
        decreases expr_size(*e), 0int,
    {
        match e {
            Expr::Literal { .. } => {},
            Expr::Grouping { expression } => self.resolve_expr(expression),
            Expr::Unary { right, .. } => self.resolve_expr(right),
            Expr::Binary { left, right, .. } => {
                self.resolve_expr(left);
                self.resolve_expr(right);
            },
            Expr::Logical { left, right, .. } => {
                self.resolve_expr(left);
                self.resolve_expr(right);
            },
            Expr::Variable { name, id } => {
                self.check_var_read(name);
                self.resolve_local(name, *id);
            },
            Expr::Assign { name, id, value } => {
                self.resolve_expr(value);
                self.resolve_local(name, *id);
            },
            Expr::Call { callee, arguments, .. } => {
                self.resolve_expr(callee);
                self.resolve_exprs(arguments);
            },
        }
    }

    fn resolve_exprs(&mut self, es: &Vec<Expr>)
        ensures
            final(self)@ == resolve_exprs_s(old(self)@, es@),
        decreases exprs_size(es@), 1int,
    {
        let ghost all = es@;
        let mut i: usize = 0;
        proof {
            assert(all.skip(0) =~= all);
        }
        while i < es.len()
            invariant
                i <= es.len(),
                es@ == all,
                resolve_exprs_s(old(self)@, all) == resolve_exprs_s(self@, all.skip(i as int)),
            decreases es.len() - i,
        {
            proof {
                lemma_exprs_size_elem(all, i as int);
                assert(all.skip(i as int)[0] == all[i as int]);
                assert(all.skip(i as int).drop_first() =~= all.skip(i + 1));
            }
            self.resolve_expr(&es[i]);
            i = i + 1;
        }
        proof {
            assert(all.skip(es@.len() as int) =~= Seq::<Expr>::empty());
        }
    }

    fn resolve_stmt(&mut self, s: &Stmt)
        ensures
            final(self)@ == resolve_stmt_s(old(self)@, *s),
        decreases stmt_size(*s), 0int,
    {
        match s {
            Stmt::Expression { expression } => self.resolve_expr(expression),
            Stmt::Print { expression } => self.resolve_expr(expression),
            Stmt::Var { name, initializer } => {
                self.declare(name);
                match initializer {
                    Some(e) => self.resolve_expr(e),
                    None => {},
                }
                self.define(name);
            },
            Stmt::Block { statements } => {
                self.begin_scope();
                self.resolve_stmt_list(statements);
                proof {
                    assert(self@.scopes.len() > 0) by {
                        lemma_stmts_scope_depth(rs_push(old(self)@), statements@);
                    }
                }
                self.end_scope();
            },
            Stmt::If { condition, then_branch, else_branch } => {
                self.resolve_expr(condition);
                self.resolve_stmt(then_branch);
                match else_branch {
                    Some(e) => self.resolve_stmt(e),
                    None => {},
                }
            },
            Stmt::While { condition, body } => {
                self.resolve_expr(condition);
                self.resolve_stmt(body);
            },
            Stmt::Function { name, params, body } => {
                self.declare(name);
                self.define(name);
                self.resolve_function(params, body);
            },
            Stmt::Return { keyword, value } => {
                match self.current_function {
                    FunctionKind::TopLevel => {
                        self.errors.push(
                            ResolveError::ReturnOutsideFunction { line: keyword.line },
                        );
                        proof {
                            lemma_resolver_view(*self);
                            assert(self@.errs =~= old(self)@.errs.push(
                                ResolveErrorV::ReturnOutsideFunction { line: keyword.line as nat },
                            ));
                        }
                    },
                    FunctionKind::Function => {},
                }
                match value {
                    Some(e) => self.resolve_expr(e),
                    None => {},
                }
            },
        }
    }

    fn resolve_stmt_list(&mut self, ss: &Vec<Stmt>)
        ensures
            final(self)@ == resolve_stmts_s(old(self)@, ss@),
        decreases stmts_size(ss@), 1int,
    {
        let ghost all = ss@;
        let mut i: usize = 0;
        proof {
            assert(all.skip(0) =~= all);
        }
        while i < ss.len()
            invariant
                i <= ss.len(),
                ss@ == all,
                resolve_stmts_s(old(self)@, all) == resolve_stmts_s(self@, all.skip(i as int)),
            decreases ss.len() - i,
        {
            proof {
                lemma_stmts_size_elem(all, i as int);
                assert(all.skip(i as int)[0] == all[i as int]);
                assert(all.skip(i as int).drop_first() =~= all.skip(i + 1));
            }
            self.resolve_stmt(&ss[i]);
            i = i + 1;
        }
        proof {
            assert(all.skip(ss@.len() as int) =~= Seq::<Stmt>::empty());
        }
    }

    fn resolve_function(&mut self, params: &Vec<Token>, body: &Vec<Stmt>)
        ensures
            final(self)@ == rs_function(old(self)@, params@, body@),
        decreases params@.len() + stmts_size(body@), 2int,
    {
        let enclosing = self.current_function;
        self.current_function = FunctionKind::Function;
        self.begin_scope();
        let ghost entered = self@;
        let mut i: usize = 0;
        proof {
            assert(params@.skip(0) =~= params@);
        }
        while i < params.len()
            invariant
                i <= params.len(),
                rs_params(entered, params@) == rs_params(self@, params@.skip(i as int)),
            decreases params.len() - i,
        {
            proof {
                assert(params@.skip(i as int)[0] == params@[i as int]);
                assert(params@.skip(i as int).drop_first() =~= params@.skip(i + 1));
            }
            self.declare(&params[i]);
            self.define(&params[i]);
            i = i + 1;
        }
        proof {
            assert(params@.skip(params@.len() as int) =~= Seq::<Token>::empty());
        }
        self.resolve_stmt_list(body);
        proof {
            assert(self@.scopes.len() > 0) by {
                lemma_stmts_scope_depth(rs_params(entered, params@), body@);
                lemma_params_scope_depth(entered, params@);
            }
        }
        self.end_scope();
        self.current_function = enclosing;
        proof {
            assert(self@ =~= rs_function(old(self)@, params@, body@));
        }
    }

    /// The public entry point of the pass: resolves each top-level
    /// statement in order, accumulating the binding table and the errors.
    pub fn resolve_stmts(&mut self, statements: &Vec<Stmt>)
        ensures
            final(self)@ == resolve_stmts_s(old(self)@, statements@),
    {
        self.resolve_stmt_list(statements);
    }
}

/// Resolving an expression reads the scope stack but never alters it,
/// nor the function kind.
pub proof fn lemma_expr_scopes(st: ResolverV, e: Expr)
    ensures
        resolve_expr_s(st, e).scopes == st.scopes,
        resolve_expr_s(st, e).in_function == st.in_function,
    decreases expr_size(e), 0int,
{
    match e {
        Expr::Literal { .. } => {},
        Expr::Grouping { expression } => lemma_expr_scopes(st, *expression),
        Expr::Unary { right, .. } => lemma_expr_scopes(st, *right),
        Expr::Binary { left, right, .. } => {
            lemma_expr_scopes(st, *left);
            lemma_expr_scopes(resolve_expr_s(st, *left), *right);
        },
        Expr::Logical { left, right, .. } => {
            lemma_expr_scopes(st, *left);
            lemma_expr_scopes(resolve_expr_s(st, *left), *right);
        },
        Expr::Variable { .. } => {},
        Expr::Assign { value, .. } => lemma_expr_scopes(st, *value),
        Expr::Call { callee, arguments, .. } => {
            lemma_expr_scopes(st, *callee);
            lemma_exprs_scopes(resolve_expr_s(st, *callee), arguments@);
        },
    }
}

/// Resolving a list of expressions never alters the scope stack.
pub proof fn lemma_exprs_scopes(st: ResolverV, es: Seq<Expr>)
    ensures
        resolve_exprs_s(st, es).scopes == st.scopes,
        resolve_exprs_s(st, es).in_function == st.in_function,
    decreases exprs_size(es), 1int,
{
    if es.len() > 0 {
        lemma_expr_scopes(st, es[0]);
        lemma_exprs_scopes(resolve_expr_s(st, es[0]), es.drop_first());
    }
}

/// Resolving a statement pushes and pops scopes in balance: the scope
/// depth ends exactly where it started, and the function kind is
/// restored.
pub proof fn lemma_stmt_scope_depth(st: ResolverV, s: Stmt)
    ensures
        resolve_stmt_s(st, s).scopes.len() == st.scopes.len(),
        resolve_stmt_s(st, s).in_function == st.in_function,
    decreases stmt_size(s), 0int,
{
    match s {
        Stmt::Expression { expression } => lemma_expr_scopes(st, expression),
        Stmt::Print { expression } => lemma_expr_scopes(st, expression),
        Stmt::Var { name, initializer } => {
            match initializer {
                Some(e) => lemma_expr_scopes(rs_declare(st, name), e),
                None => {},
            }
        },
        Stmt::Block { statements } => {
            lemma_stmts_scope_depth(rs_push(st), statements@);
        },
        Stmt::If { condition, then_branch, else_branch } => {
            lemma_expr_scopes(st, condition);
            let st1 = resolve_expr_s(st, condition);
            lemma_stmt_scope_depth(st1, *then_branch);
            match else_branch {
                Some(e) => lemma_stmt_scope_depth(resolve_stmt_s(st1, *then_branch), *e),
                None => {},
            }
        },
        Stmt::While { condition, body } => {
            lemma_expr_scopes(st, condition);
            lemma_stmt_scope_depth(resolve_expr_s(st, condition), *body);
        },
        Stmt::Function { name, params, body } => {
            let st1 = rs_define(rs_declare(st, name), name);
            let entered = ResolverV { in_function: true, ..rs_push(st1) };
            lemma_params_scope_depth(entered, params@);
            lemma_stmts_scope_depth(rs_params(entered, params@), body@);
            assert(rs_function(st1, params@, body@).scopes.len() == st1.scopes.len());
            assert(rs_function(st1, params@, body@).in_function == st1.in_function);
        },
        Stmt::Return { keyword, value } => {
            match value {
                Some(e) => {
                    let st1 = if !st.in_function {
                        ResolverV {
                            errs: st.errs.push(
                                ResolveErrorV::ReturnOutsideFunction { line: keyword.line as nat },
                            ),
                            ..st
                        }
                    } else {
                        st
                    };
                    lemma_expr_scopes(st1, e);
                },
                None => {},
            }
        },
    }
}

/// Resolving statements pushes and pops scopes in balance.
pub proof fn lemma_stmts_scope_depth(st: ResolverV, ss: Seq<Stmt>)
    ensures
        resolve_stmts_s(st, ss).scopes.len() == st.scopes.len(),
        resolve_stmts_s(st, ss).in_function == st.in_function,
    decreases stmts_size(ss), 1int,
{
    if ss.len() > 0 {
        lemma_stmt_scope_depth(st, ss[0]);
        lemma_stmts_scope_depth(resolve_stmt_s(st, ss[0]), ss.drop_first());
    }
}

/// Seeding parameters never changes the scope depth.
pub proof fn lemma_params_scope_depth(st: ResolverV, ps: Seq<Token>)
    ensures
        rs_params(st, ps).scopes.len() == st.scopes.len(),
    decreases ps.len(), 1int,
{
    if ps.len() > 0 {
        lemma_params_scope_depth(rs_define(rs_declare(st, ps[0]), ps[0]), ps.drop_first());
    }
}

/// Skipping a concatenation's left part leaves its right part.
proof fn lemma_concat_skip(a: Seq<(u64, usize)>, b: Seq<(u64, usize)>)
    ensures
        (a + b).skip(a.len() as int) == b,
{
    assert((a + b).skip(a.len() as int) =~= b);
}

/// A lookup in a concatenation takes the right part's answer where it has
/// one.
proof fn lemma_tbl_get_concat(a: Seq<(u64, usize)>, b: Seq<(u64, usize)>, id: u64)
    ensures
        tbl_get(a + b, id) == match tbl_get(b, id) {
            Some(d) => Some(d),
            None => tbl_get(a, id),
        },
    decreases b.len(),
{
    if b.len() == 0 {
        assert(a + b =~= a);
    } else {
        assert((a + b).drop_last() =~= a + b.drop_last());
        lemma_tbl_get_concat(a, b.drop_last(), id);
    }
}

/// What a pass appends to the binding table depends only on the scope
/// stack, the function kind, and the expression: two states that agree on
/// those see the same entries recorded, and evolve their scopes alike.
proof fn lemma_expr_frame(st1: ResolverV, st2: ResolverV, e: Expr)
    requires
        st1.scopes == st2.scopes,
        st1.in_function == st2.in_function,
    ensures
        ({
            let r1 = resolve_expr_s(st1, e);
            let r2 = resolve_expr_s(st2, e);
            r1.scopes == r2.scopes && r1.in_function == r2.in_function && st1.binds.len()
                <= r1.binds.len() && r1.binds == st1.binds + r1.binds.skip(st1.binds.len() as int)
                && r2.binds == st2.binds + r1.binds.skip(st1.binds.len() as int)
        }),
    decreases expr_size(e), 0int,
{
    let r1 = resolve_expr_s(st1, e);
    let r2 = resolve_expr_s(st2, e);
    match e {
        Expr::Literal { .. } => {
            assert(r1.binds =~= st1.binds + r1.binds.skip(st1.binds.len() as int));
            assert(r2.binds =~= st2.binds + r1.binds.skip(st1.binds.len() as int));
        },
        Expr::Grouping { expression } => {
            lemma_expr_frame(st1, st2, *expression);
        },
        Expr::Unary { right, .. } => {
            lemma_expr_frame(st1, st2, *right);
        },
        Expr::Binary { left, right, .. } => {
            lemma_expr_frame(st1, st2, *left);
            let m1 = resolve_expr_s(st1, *left);
            let m2 = resolve_expr_s(st2, *left);
            lemma_expr_frame(m1, m2, *right);
            let da = m1.binds.skip(st1.binds.len() as int);
            let db = r1.binds.skip(m1.binds.len() as int);
            assert(r1.binds =~= st1.binds + (da + db));
            lemma_concat_skip(st1.binds, da + db);
            assert(r2.binds =~= st2.binds + (da + db));
        },
        Expr::Logical { left, right, .. } => {
            lemma_expr_frame(st1, st2, *left);
            let m1 = resolve_expr_s(st1, *left);
            let m2 = resolve_expr_s(st2, *left);
            lemma_expr_frame(m1, m2, *right);
            let da = m1.binds.skip(st1.binds.len() as int);
            let db = r1.binds.skip(m1.binds.len() as int);
            assert(r1.binds =~= st1.binds + (da + db));
            lemma_concat_skip(st1.binds, da + db);
            assert(r2.binds =~= st2.binds + (da + db));
        },
        Expr::Variable { name, id } => {
            match find_depth(st1.scopes, name.lexeme@) {
                Some(d) => {
                    assert(r1.binds =~= st1.binds + seq![(id, d as usize)]);
                    lemma_concat_skip(st1.binds, seq![(id, d as usize)]);
                    assert(r2.binds =~= st2.binds + seq![(id, d as usize)]);
                },
                None => {
                    assert(r1.binds =~= st1.binds + r1.binds.skip(st1.binds.len() as int));
                    assert(r2.binds =~= st2.binds + r1.binds.skip(st1.binds.len() as int));
                },
            }
        },
        Expr::Assign { name, id, value } => {
            lemma_expr_frame(st1, st2, *value);
            let m1 = resolve_expr_s(st1, *value);
            let m2 = resolve_expr_s(st2, *value);
            let da = m1.binds.skip(st1.binds.len() as int);
            match find_depth(m1.scopes, name.lexeme@) {
                Some(d) => {
                    assert(r1.binds =~= st1.binds + (da + seq![(id, d as usize)]));
                    lemma_concat_skip(st1.binds, da + seq![(id, d as usize)]);
                    assert(r2.binds =~= st2.binds + (da + seq![(id, d as usize)]));
                },
                None => {
                    assert(r1.binds =~= st1.binds + da);
                    lemma_concat_skip(st1.binds, da);
                    assert(r2.binds =~= st2.binds + da);
                },
            }
        },
        Expr::Call { callee, arguments, .. } => {
            lemma_expr_frame(st1, st2, *callee);
            let m1 = resolve_expr_s(st1, *callee);
            let m2 = resolve_expr_s(st2, *callee);
            lemma_exprs_frame(m1, m2, arguments@);
            let da = m1.binds.skip(st1.binds.len() as int);
            let db = r1.binds.skip(m1.binds.len() as int);
            assert(r1.binds =~= st1.binds + (da + db));
            lemma_concat_skip(st1.binds, da + db);
            assert(r2.binds =~= st2.binds + (da + db));
        },
    }
}

/// The frame property of [`lemma_expr_frame`], for expression lists.
proof fn lemma_exprs_frame(st1: ResolverV, st2: ResolverV, es: Seq<Expr>)
    requires
        st1.scopes == st2.scopes,
        st1.in_function == st2.in_function,
    ensures
        ({
            let r1 = resolve_exprs_s(st1, es);
            let r2 = resolve_exprs_s(st2, es);
            r1.scopes == r2.scopes && r1.in_function == r2.in_function && st1.binds.len()
                <= r1.binds.len() && r1.binds == st1.binds + r1.binds.skip(st1.binds.len() as int)
                && r2.binds == st2.binds + r1.binds.skip(st1.binds.len() as int)
        }),
    decreases exprs_size(es), 0int,
{
    let r1 = resolve_exprs_s(st1, es);
    let r2 = resolve_exprs_s(st2, es);
    if es.len() == 0 {
        assert(r1.binds =~= st1.binds + r1.binds.skip(st1.binds.len() as int));
        assert(r2.binds =~= st2.binds + r1.binds.skip(st1.binds.len() as int));
    } else {
        lemma_expr_frame(st1, st2, es[0]);
        let m1 = resolve_expr_s(st1, es[0]);
        let m2 = resolve_expr_s(st2, es[0]);
        lemma_exprs_frame(m1, m2, es.drop_first());
        let da = m1.binds.skip(st1.binds.len() as int);
        let db = r1.binds.skip(m1.binds.len() as int);
        assert(r1.binds =~= st1.binds + (da + db));
        lemma_concat_skip(st1.binds, da + db);
        assert(r2.binds =~= st2.binds + (da + db));
    }
}

/// The frame property of [`lemma_expr_frame`], for one statement.
proof fn lemma_stmt_frame(st1: ResolverV, st2: ResolverV, s: Stmt)
    requires
        st1.scopes == st2.scopes,
        st1.in_function == st2.in_function,
    ensures
        ({
            let r1 = resolve_stmt_s(st1, s);
            let r2 = resolve_stmt_s(st2, s);
            r1.scopes == r2.scopes && r1.in_function == r2.in_function && st1.binds.len()
                <= r1.binds.len() && r1.binds == st1.binds + r1.binds.skip(st1.binds.len() as int)
                && r2.binds == st2.binds + r1.binds.skip(st1.binds.len() as int)
        }),
    decreases stmt_size(s), 0int,
{
    let r1 = resolve_stmt_s(st1, s);
    let r2 = resolve_stmt_s(st2, s);
    match s {
        Stmt::Expression { expression } => lemma_expr_frame(st1, st2, expression),
        Stmt::Print { expression } => lemma_expr_frame(st1, st2, expression),
        Stmt::Var { name, initializer } => {
            let d1 = rs_declare(st1, name);
            let d2 = rs_declare(st2, name);
            match initializer {
                Some(e) => {
                    lemma_expr_frame(d1, d2, e);
                    let m1 = resolve_expr_s(d1, e);
                    assert(r1.binds =~= st1.binds + m1.binds.skip(st1.binds.len() as int));
                    assert(r2.binds =~= st2.binds + m1.binds.skip(st1.binds.len() as int));
                },
                None => {
                    assert(r1.binds =~= st1.binds + r1.binds.skip(st1.binds.len() as int));
                    assert(r2.binds =~= st2.binds + r1.binds.skip(st1.binds.len() as int));
                },
            }
        },
        Stmt::Block { statements } => {
            lemma_stmts_frame(rs_push(st1), rs_push(st2), statements@);
            let m1 = resolve_stmts_s(rs_push(st1), statements@);
            assert(r1.binds =~= st1.binds + m1.binds.skip(st1.binds.len() as int));
            assert(r2.binds =~= st2.binds + m1.binds.skip(st1.binds.len() as int));
        },
        Stmt::If { condition, then_branch, else_branch } => {
            lemma_expr_frame(st1, st2, condition);
            let c1 = resolve_expr_s(st1, condition);
            let c2 = resolve_expr_s(st2, condition);
            lemma_stmt_frame(c1, c2, *then_branch);
            let t1 = resolve_stmt_s(c1, *then_branch);
            let t2 = resolve_stmt_s(c2, *then_branch);
            match else_branch {
                Some(e) => {
                    lemma_stmt_frame(t1, t2, *e);
                    let da = c1.binds.skip(st1.binds.len() as int);
                    let db = t1.binds.skip(c1.binds.len() as int);
                    let dc = r1.binds.skip(t1.binds.len() as int);
                    assert(r1.binds =~= st1.binds + (da + db + dc));
                    lemma_concat_skip(st1.binds, da + db + dc);
                    assert(r2.binds =~= st2.binds + (da + db + dc));
                },
                None => {
                    let da = c1.binds.skip(st1.binds.len() as int);
                    let db = r1.binds.skip(c1.binds.len() as int);
                    assert(r1.binds =~= st1.binds + (da + db));
                    lemma_concat_skip(st1.binds, da + db);
                    assert(r2.binds =~= st2.binds + (da + db));
                },
            }
        },
        Stmt::While { condition, body } => {
            lemma_expr_frame(st1, st2, condition);
            let c1 = resolve_expr_s(st1, condition);
            let c2 = resolve_expr_s(st2, condition);
            lemma_stmt_frame(c1, c2, *body);
            let da = c1.binds.skip(st1.binds.len() as int);
            let db = r1.binds.skip(c1.binds.len() as int);
            assert(r1.binds =~= st1.binds + (da + db));
            lemma_concat_skip(st1.binds, da + db);
            assert(r2.binds =~= st2.binds + (da + db));
        },
        Stmt::Function { name, params, body } => {
            let d1 = rs_define(rs_declare(st1, name), name);
            let d2 = rs_define(rs_declare(st2, name), name);
            lemma_function_frame(d1, d2, params@, body@);
            let f1 = rs_function(d1, params@, body@);
            assert(r1.binds =~= st1.binds + f1.binds.skip(st1.binds.len() as int));
            assert(r2.binds =~= st2.binds + f1.binds.skip(st1.binds.len() as int));
        },
        Stmt::Return { keyword, value } => {
            let m1 = if !st1.in_function {
                ResolverV {
                    errs: st1.errs.push(
                        ResolveErrorV::ReturnOutsideFunction { line: keyword.line as nat },
                    ),
                    ..st1
                }
            } else {
                st1
            };
            let m2 = if !st2.in_function {
                ResolverV {
                    errs: st2.errs.push(
                        ResolveErrorV::ReturnOutsideFunction { line: keyword.line as nat },
                    ),
                    ..st2
                }
            } else {
                st2
            };
            match value {
                Some(e) => {
                    lemma_expr_frame(m1, m2, e);
                },
                None => {
                    assert(r1.binds =~= st1.binds + r1.binds.skip(st1.binds.len() as int));
                    assert(r2.binds =~= st2.binds + r1.binds.skip(st1.binds.len() as int));
                },
            }
        },
    }
}

/// The frame property of [`lemma_expr_frame`], for statement lists.
proof fn lemma_stmts_frame(st1: ResolverV, st2: ResolverV, ss: Seq<Stmt>)
    requires
        st1.scopes == st2.scopes,
        st1.in_function == st2.in_function,
    ensures
        ({
            let r1 = resolve_stmts_s(st1, ss);
            let r2 = resolve_stmts_s(st2, ss);
            r1.scopes == r2.scopes && r1.in_function == r2.in_function && st1.binds.len()
                <= r1.binds.len() && r1.binds == st1.binds + r1.binds.skip(st1.binds.len() as int)
                && r2.binds == st2.binds + r1.binds.skip(st1.binds.len() as int)
        }),
    decreases stmts_size(ss), 1int,
{
    let r1 = resolve_stmts_s(st1, ss);
    let r2 = resolve_stmts_s(st2, ss);
    if ss.len() == 0 {
        assert(r1.binds =~= st1.binds + r1.binds.skip(st1.binds.len() as int));
        assert(r2.binds =~= st2.binds + r1.binds.skip(st1.binds.len() as int));
    } else {
        lemma_stmt_frame(st1, st2, ss[0]);
        let m1 = resolve_stmt_s(st1, ss[0]);
        let m2 = resolve_stmt_s(st2, ss[0]);
        lemma_stmts_frame(m1, m2, ss.drop_first());
        let da = m1.binds.skip(st1.binds.len() as int);
        let db = r1.binds.skip(m1.binds.len() as int);
        assert(r1.binds =~= st1.binds + (da + db));
        lemma_concat_skip(st1.binds, da + db);
        assert(r2.binds =~= st2.binds + (da + db));
    }
}

/// Seeding parameters records nothing in the binding table and evolves
/// two scope-equal states alike.
proof fn lemma_params_frame(st1: ResolverV, st2: ResolverV, ps: Seq<Token>)
    requires
        st1.scopes == st2.scopes,
        st1.in_function == st2.in_function,
    ensures
        ({
            let r1 = rs_params(st1, ps);
            let r2 = rs_params(st2, ps);
            r1.scopes == r2.scopes && r1.in_function == r2.in_function && r1.binds == st1.binds
                && r2.binds == st2.binds
        }),
    decreases ps.len(), 1int,
{
    if ps.len() > 0 {
        lemma_params_frame(
            rs_define(rs_declare(st1, ps[0]), ps[0]),
            rs_define(rs_declare(st2, ps[0]), ps[0]),
            ps.drop_first(),
        );
    }
}

/// The frame property of [`lemma_expr_frame`], for a function body.
proof fn lemma_function_frame(st1: ResolverV, st2: ResolverV, ps: Seq<Token>, body: Seq<Stmt>)
    requires
        st1.scopes == st2.scopes,
        st1.in_function == st2.in_function,
    ensures
        ({
            let r1 = rs_function(st1, ps, body);
            let r2 = rs_function(st2, ps, body);
            r1.scopes == r2.scopes && r1.in_function == r2.in_function && st1.binds.len()
                <= r1.binds.len() && r1.binds == st1.binds + r1.binds.skip(st1.binds.len() as int)
                && r2.binds == st2.binds + r1.binds.skip(st1.binds.len() as int)
        }),
    decreases ps.len() + stmts_size(body), 2int,
{
    let e1 = ResolverV { in_function: true, ..rs_push(st1) };
    let e2 = ResolverV { in_function: true, ..rs_push(st2) };
    lemma_params_frame(e1, e2, ps);
    let s1 = rs_params(e1, ps);
    let s2 = rs_params(e2, ps);
    lemma_stmts_frame(s1, s2, body);
    let b1 = resolve_stmts_s(s1, body);
    let r1 = rs_function(st1, ps, body);
    let r2 = rs_function(st2, ps, body);
    assert(r1.binds =~= st1.binds + b1.binds.skip(st1.binds.len() as int));
    assert(r2.binds =~= st2.binds + b1.binds.skip(st1.binds.len() as int));
}

/// Re-running the resolver pass over the same syntax tree, continuing
/// from the state the first pass left behind, appends a second copy of
/// the same entries: read as a lookup table, the binding table after the
/// second pass answers every query exactly as it did after the first.
/// The table is a pure function of the syntax tree.
pub proof fn lemma_resolution_idempotent(program: Seq<Stmt>)
    ensures
        ({
            let once = resolve_stmts_s(initial_resolver(), program);
            let twice = resolve_stmts_s(once, program);
            forall|id: u64| #[trigger] tbl_get(twice.binds, id) == tbl_get(once.binds, id)
        }),
{
    let init = initial_resolver();
    let once = resolve_stmts_s(init, program);
    let twice = resolve_stmts_s(once, program);
    lemma_stmts_scope_depth(init, program);
    assert(once.scopes =~= init.scopes);
    lemma_stmts_frame(init, once, program);
    let delta = once.binds.skip(init.binds.len() as int);
    assert(once.binds =~= delta);
    assert forall|id: u64| #[trigger] tbl_get(twice.binds, id) == tbl_get(once.binds, id) by {
        lemma_tbl_get_concat(once.binds, delta, id);
    }
}

} // verus!
