//! The evaluator, and the big-step semantics it is proved against.
//!
//! The semantics is a family of total spec functions over a state
//! [`St`]: the frame arena, the current-frame cursor, the output lines
//! printed so far, and the latest host clock reading — taken when the
//! interpreter is built and again at the start of each run, and held
//! fixed in between, since an exact deterministic semantics cannot admit
//! a value that changes under it. Every executable method of
//! [`Interpreter`] is proved to compute exactly what the corresponding
//! spec function says.
//!
//! Variable references consult the resolver's binding table: a recorded
//! distance drives a direct walk up the frame chain; a name without an
//! entry resolves against the global frame. A recorded distance that
//! exceeds the chain is an internal fault, not a user error, and it is
//! fatal: the top-level run stops there, where a user error only ends its
//! own statement. A call checks its callee for callability as soon as the
//! callee is evaluated, before any argument runs.
//!
//! Evaluation is guarded by a fuel bound: each function call and each
//! loop iteration spends one unit, and exhaustion surfaces as the
//! depth-guard error. Within one unit, recursion is structural over the
//! tree, so the semantics is total and the evaluator terminates.
//!
//! `return` unwinds as a third statement outcome, distinct from normal
//! completion and from errors; only the function-call boundary converts
//! it into an ordinary value.

use vstd::prelude::*;

use crate::ast::{expr_size, exprs_size, stmt_size, stmts_size, Expr, Stmt};
use crate::environment::{at_distance, Env, FrameV};
use crate::errors::{RuntimeError, RuntimeErrorV};
use crate::resolver::tbl_get;
use crate::token::{Token, TokenType};
use crate::value::{truthy, val_display, val_eq, Object, Val};

verus! {

/// The evaluator's state: the frame arena, the cursor naming the current
/// frame, the output written so far, and the latest host clock reading.
#[verifier::ext_equal]
pub struct St {
    pub frames: Seq<FrameV>,
    pub cur: int,
    pub out: Seq<Seq<char>>,
    pub clock: i64,
}

/// The outcome of a statement: normal completion, a `return` unwinding
/// with its value, or an error.
pub enum StmtR {
    Normal,
    Return(Val),
    Fail(RuntimeErrorV),
}

/// The ordering of two values: the sign of the comparison for two
/// numbers or two strings, `None` for every other pair.
pub open spec fn cmp_vals(a: Val, b: Val) -> Option<int> {
    match a {
        Val::Num(x) => match b {
            Val::Num(y) => Some(
                if x < y {
                    -1int
                } else if x == y {
                    0int
                } else {
                    1int
                },
            ),
            _ => None,
        },
        Val::Str(x) => match b {
            Val::Str(y) => Some(str_cmp(x, y)),
            _ => None,
        },
        _ => None,
    }
}

/// Lexicographic comparison of two character sequences, by code point:
/// the sign of the comparison.
pub open spec fn str_cmp(a: Seq<char>, b: Seq<char>) -> int
    decreases a.len(),
{
    if a.len() == 0 && b.len() == 0 {
        0
    } else if a.len() == 0 {
        -1
    } else if b.len() == 0 {
        1
    } else if a[0] != b[0] {
        if a[0] < b[0] {
            -1
        } else {
            1
        }
    } else {
        str_cmp(a.drop_first(), b.drop_first())
    }
}

/// The result of a binary operator on two evaluated operands, or the
/// error it raises. Division by zero is reported as a type mismatch: the
/// error taxonomy has no separate kind for it and the whole-valued number
/// domain has no infinity to return. Operators outside the language's set
/// yield nil, as the tree never carries them when it comes from a parser.
pub open spec fn binary_op(op: TokenType, line: nat, a: Val, b: Val) -> Result<
    Val,
    RuntimeErrorV,
> {
    match op {
        TokenType::Greater => match cmp_vals(a, b) {
            Some(c) => Ok(Val::Bool(c > 0)),
            None => Err(RuntimeErrorV::TypeMismatch { line }),
        },
        TokenType::GreaterEqual => match cmp_vals(a, b) {
            Some(c) => Ok(Val::Bool(c >= 0)),
            None => Err(RuntimeErrorV::TypeMismatch { line }),
        },
        TokenType::Less => match cmp_vals(a, b) {
            Some(c) => Ok(Val::Bool(c < 0)),
            None => Err(RuntimeErrorV::TypeMismatch { line }),
        },
        TokenType::LessEqual => match cmp_vals(a, b) {
            Some(c) => Ok(Val::Bool(c <= 0)),
            None => Err(RuntimeErrorV::TypeMismatch { line }),
        },
        TokenType::BangEqual => Ok(Val::Bool(!val_eq(a, b))),
        TokenType::EqualEqual => Ok(Val::Bool(val_eq(a, b))),
        TokenType::Minus => match (a, b) {
            (Val::Num(x), Val::Num(y)) => Ok(
                Val::Num(vstd::wrapping::i64_specs::wrapping_sub(x, y)),
            ),
            _ => Err(RuntimeErrorV::TypeMismatch { line }),
        },
        TokenType::Plus => match (a, b) {
            (Val::Num(x), Val::Num(y)) => Ok(
                Val::Num(vstd::wrapping::i64_specs::wrapping_add(x, y)),
            ),
            (Val::Str(x), Val::Str(y)) => Ok(Val::Str(x + y)),
            _ => Err(RuntimeErrorV::TypeMismatch { line }),
        },
        TokenType::Slash => match (a, b) {
            (Val::Num(x), Val::Num(y)) => if y == 0 {
                Err(RuntimeErrorV::TypeMismatch { line })
            } else {
                match i64::checked_div(x, y) {
                    Some(q) => Ok(Val::Num(q)),
                    None => Ok(Val::Num(i64::MIN)),
                }
            },
            _ => Err(RuntimeErrorV::TypeMismatch { line }),
        },
        TokenType::Star => match (a, b) {
            (Val::Num(x), Val::Num(y)) => Ok(
                Val::Num(vstd::wrapping::i64_specs::wrapping_mul(x, y)),
            ),
            _ => Err(RuntimeErrorV::TypeMismatch { line }),
        },
        _ => Ok(Val::Nil),
    }
}

/// Whether a value can stand as the callee of a call: a user-defined
/// function or the host builtin. The callee is checked as soon as it is
/// evaluated, before any argument is.
pub open spec fn is_callable(v: Val) -> bool {
    v is Clock || v is Fun
}

/// The frame the parameters of a call populate, each bound positionally
/// to its argument; with a repeated parameter name the last binding wins.
pub open spec fn bind_params(ps: Seq<Token>, vs: Seq<Val>) -> Map<Seq<char>, Val>
    decreases ps.len(),
{
    if ps.len() == 0 {
        Map::empty()
    } else {
        bind_params(ps.drop_last(), vs.drop_last()).insert(
            ps.last().lexeme@,
            vs[ps.len() - 1],
        )
    }
}

/// The state after binding `name` to `v` in the current frame.
pub open spec fn st_define(st: St, name: Seq<char>, v: Val) -> St {
    St {
        frames: st.frames.update(
            st.cur,
            FrameV { map: st.frames[st.cur].map.insert(name, v), enclosing: st.frames[st.cur].enclosing },
        ),
        ..st
    }
}

/// Reading a variable through the binding table: a recorded distance
/// walks the chain directly; a name without an entry reads the global
/// frame. A declared variable still holding the nil sentinel is an
/// uninitialized read; an unknown name is an undefined one.
pub open spec fn read_var(st: St, tbl: Seq<(u64, usize)>, name: Token, id: u64) -> Result<
    Val,
    RuntimeErrorV,
> {
    match tbl_get(tbl, id) {
        Some(d) => match at_distance(st.frames, st.cur, d as nat) {
            Some(fi) => read_frame(st, fi, name),
            None => Err(RuntimeErrorV::ResolutionFault),
        },
        None => if st.frames.len() == 0 {
            Err(RuntimeErrorV::ResolutionFault)
        } else {
            read_frame(st, 0, name)
        },
    }
}

/// Reading a name in one frame, with the uninitialized-read check.
pub open spec fn read_frame(st: St, fi: int, name: Token) -> Result<Val, RuntimeErrorV> {
    if st.frames[fi].map.contains_key(name.lexeme@) {
        if st.frames[fi].map[name.lexeme@] is Nil {
            Err(
                RuntimeErrorV::UninitializedVariable {
                    line: name.line as nat,
                    name: name.lexeme@,
                },
            )
        } else {
            Ok(st.frames[fi].map[name.lexeme@])
        }
    } else {
        Err(RuntimeErrorV::UndefinedVariable { line: name.line as nat, name: name.lexeme@ })
    }
}

/// The state after binding `name` to `v` in frame `fi`.
pub open spec fn write_frame(st: St, fi: int, name: Seq<char>, v: Val) -> St {
    St {
        frames: st.frames.update(
            fi,
            FrameV { map: st.frames[fi].map.insert(name, v), enclosing: st.frames[fi].enclosing },
        ),
        ..st
    }
}

/// Assigning a variable through the binding table: a recorded distance
/// addresses its frame directly; a name without an entry assigns in the
/// global frame, and fails as undefined where the global frame does not
/// already bind it. Assignment never creates a global binding.
pub open spec fn assign_var(st: St, tbl: Seq<(u64, usize)>, name: Token, id: u64, v: Val) -> (
    St,
    Result<Val, RuntimeErrorV>,
) {
    match tbl_get(tbl, id) {
        Some(d) => match at_distance(st.frames, st.cur, d as nat) {
            Some(fi) => (write_frame(st, fi, name.lexeme@, v), Ok(v)),
            None => (st, Err(RuntimeErrorV::ResolutionFault)),
        },
        None => if st.frames.len() == 0 {
            (st, Err(RuntimeErrorV::ResolutionFault))
        } else if st.frames[0].map.contains_key(name.lexeme@) {
            (write_frame(st, 0, name.lexeme@, v), Ok(v))
        } else {
            (
                st,
                Err(
                    RuntimeErrorV::UndefinedVariable {
                        line: name.line as nat,
                        name: name.lexeme@,
                    },
                ),
            )
        },
    }
}

/// Evaluation of one expression: the state after it and its value or
/// error.
pub open spec fn eval_expr(st: St, e: Expr, tbl: Seq<(u64, usize)>, fuel: nat) -> (
    St,
    Result<Val, RuntimeErrorV>,
)
    decreases fuel, expr_size(e), 0int,
{
    match e {
        Expr::Literal { value } => (st, Ok(value@)),
        Expr::Grouping { expression } => eval_expr(st, *expression, tbl, fuel),
        Expr::Unary { operator, right } => {
            let (st1, r) = eval_expr(st, *right, tbl, fuel);
            match r {
                Ok(v) => match operator.token_type {
                    TokenType::Minus => match v {
                        Val::Num(n) => (
                            st1,
                            Ok(Val::Num(vstd::wrapping::i64_specs::wrapping_sub(0, n))),
                        ),
                        _ => (
                            st1,
                            Err(RuntimeErrorV::TypeMismatch { line: operator.line as nat }),
                        ),
                    },
                    TokenType::Bang => (st1, Ok(Val::Bool(!truthy(v)))),
                    _ => (st1, Ok(Val::Nil)),
                },
                Err(er) => (st1, Err(er)),
            }
        },
        Expr::Binary { left, operator, right } => {
            let (st1, rl) = eval_expr(st, *left, tbl, fuel);
            match rl {
                Ok(a) => {
                    let (st2, rr) = eval_expr(st1, *right, tbl, fuel);
                    match rr {
                        Ok(b) => (
                            st2,
                            binary_op(operator.token_type, operator.line as nat, a, b),
                        ),
                        Err(er) => (st2, Err(er)),
                    }
                },
                Err(er) => (st1, Err(er)),
            }
        },
        Expr::Logical { left, operator, right } => {
            let (st1, rl) = eval_expr(st, *left, tbl, fuel);
            match rl {
                Ok(a) => {
                    let short = match operator.token_type {
                        TokenType::Or => truthy(a),
                        _ => !truthy(a),
                    };
                    if short {
                        (st1, Ok(a))
                    } else {
                        eval_expr(st1, *right, tbl, fuel)
                    }
                },
                Err(er) => (st1, Err(er)),
            }
        },
        Expr::Variable { name, id } => (st, read_var(st, tbl, name, id)),
        Expr::Assign { name, id, value } => {
            let (st1, r) = eval_expr(st, *value, tbl, fuel);
            match r {
                Ok(v) => assign_var(st1, tbl, name, id, v),
                Err(er) => (st1, Err(er)),
            }
        },
        Expr::Call { callee, paren, arguments } => {
            let (st1, rc) = eval_expr(st, *callee, tbl, fuel);
            match rc {
                Ok(c) => if !is_callable(c) {
                    (st1, Err(RuntimeErrorV::NotCallable { line: paren.line as nat }))
                } else {
                    let (st2, ra) = eval_exprs(st1, arguments@, tbl, fuel);
                    match ra {
                        Ok(vs) => call_value(st2, c, vs, paren.line as nat, tbl, fuel),
                        Err(er) => (st2, Err(er)),
                    }
                },
                Err(er) => (st1, Err(er)),
            }
        },
    }
}

/// Evaluation of a list of expressions, left to right; the first error
/// stops the list.
pub open spec fn eval_exprs(st: St, es: Seq<Expr>, tbl: Seq<(u64, usize)>, fuel: nat) -> (
    St,
    Result<Seq<Val>, RuntimeErrorV>,
)
    decreases fuel, exprs_size(es), 0int,
{
    if es.len() == 0 {
        (st, Ok(Seq::empty()))
    } else {
        let (st1, r) = eval_expr(st, es[0], tbl, fuel);
        match r {
            Ok(v) => {
                let (st2, rs) = eval_exprs(st1, es.drop_first(), tbl, fuel);
                match rs {
                    Ok(vs) => (st2, Ok(seq![v] + vs)),
                    Err(er) => (st2, Err(er)),
                }
            },
            Err(er) => (st1, Err(er)),
        }
    }
}

/// A call of an evaluated callee on evaluated arguments; evaluation has
/// already rejected a callee that is not callable. The arity must match
/// exactly. A user function runs its body in a fresh frame whose parent
/// is the frame the function captured — not the caller's — and spends one
/// unit of fuel; the clock builtin returns the reading taken at the start
/// of the run. The not-callable arm keeps the function total.
pub open spec fn call_value(
    st: St,
    c: Val,
    vs: Seq<Val>,
    line: nat,
    tbl: Seq<(u64, usize)>,
    fuel: nat,
) -> (St, Result<Val, RuntimeErrorV>)
    decreases fuel, 0int, 0int,
{
    match c {
        Val::Clock => if vs.len() != 0 {
            (
                st,
                Err(RuntimeErrorV::ArityMismatch { line, expected: 0, actual: vs.len() }),
            )
        } else {
            (st, Ok(Val::Num(st.clock)))
        },
        Val::Fun { params, body, closure, .. } => if vs.len() != params.len() {
            (
                st,
                Err(
                    RuntimeErrorV::ArityMismatch {
                        line,
                        expected: params.len(),
                        actual: vs.len(),
                    },
                ),
            )
        } else if fuel == 0 {
            (st, Err(RuntimeErrorV::DepthExceeded))
        } else {
            let entered = St {
                frames: st.frames.push(
                    FrameV { map: bind_params(params, vs), enclosing: Some(closure) },
                ),
                cur: st.frames.len() as int,
                ..st
            };
            let (st2, r) = exec_stmts(entered, body, tbl, (fuel - 1) as nat);
            let returned = St { cur: st.cur, ..st2 };
            match r {
                StmtR::Normal => (returned, Ok(Val::Nil)),
                StmtR::Return(v) => (returned, Ok(v)),
                StmtR::Fail(er) => (returned, Err(er)),
            }
        },
        _ => (st, Err(RuntimeErrorV::NotCallable { line })),
    }
}

/// Execution of one statement: the state after it and its outcome.
pub open spec fn exec_stmt(st: St, s: Stmt, tbl: Seq<(u64, usize)>, fuel: nat) -> (St, StmtR)
    decreases fuel, stmt_size(s), 1int,
{
    match s {
        Stmt::Expression { expression } => {
            let (st1, r) = eval_expr(st, expression, tbl, fuel);
            match r {
                Ok(_) => (st1, StmtR::Normal),
                Err(er) => (st1, StmtR::Fail(er)),
            }
        },
        Stmt::Print { expression } => {
            let (st1, r) = eval_expr(st, expression, tbl, fuel);
            match r {
                Ok(v) => (St { out: st1.out.push(val_display(v)), ..st1 }, StmtR::Normal),
                Err(er) => (st1, StmtR::Fail(er)),
            }
        },
        Stmt::Var { name, initializer } => {
            match initializer {
                Some(e) => {
                    let (st1, r) = eval_expr(st, e, tbl, fuel);
                    match r {
                        Ok(v) => (st_define(st1, name.lexeme@, v), StmtR::Normal),
                        Err(er) => (st1, StmtR::Fail(er)),
                    }
                },
                None => (st_define(st, name.lexeme@, Val::Nil), StmtR::Normal),
            }
        },
        Stmt::Block { statements } => {
            let entered = St {
                frames: st.frames.push(
                    FrameV { map: Map::empty(), enclosing: Some(st.cur) },
                ),
                cur: st.frames.len() as int,
                ..st
            };
            let (st2, r) = exec_stmts(entered, statements@, tbl, fuel);
            (St { cur: st.cur, ..st2 }, r)
        },
        Stmt::If { condition, then_branch, else_branch } => {
            let (st1, r) = eval_expr(st, condition, tbl, fuel);
            match r {
                Ok(v) => if truthy(v) {
                    exec_stmt(st1, *then_branch, tbl, fuel)
                } else {
                    match else_branch {
                        Some(e) => exec_stmt(st1, *e, tbl, fuel),
                        None => (st1, StmtR::Normal),
                    }
                },
                Err(er) => (st1, StmtR::Fail(er)),
            }
        },
        Stmt::While { condition, body } => exec_while(st, condition, *body, tbl, fuel),
        Stmt::Function { name, params, body } => {
            let v = Val::Fun {
                name: name.lexeme@,
                params: params@,
                body: body@,
                closure: st.cur,
            };
            (st_define(st, name.lexeme@, v), StmtR::Normal)
        },
        Stmt::Return { value, .. } => {
            match value {
                Some(e) => {
                    let (st1, r) = eval_expr(st, e, tbl, fuel);
                    match r {
                        Ok(v) => (st1, StmtR::Return(v)),
                        Err(er) => (st1, StmtR::Fail(er)),
                    }
                },
                None => (st, StmtR::Return(Val::Nil)),
            }
        },
    }
}

/// Execution of a `while` loop: the condition is re-evaluated before
/// every iteration, and each iteration spends one unit of fuel.
pub open spec fn exec_while(st: St, condition: Expr, body: Stmt, tbl: Seq<(u64, usize)>, fuel: nat) -> (
    St,
    StmtR,
)
    decreases fuel, expr_size(condition) + stmt_size(body), 0int,
{
    let (st1, r) = eval_expr(st, condition, tbl, fuel);
    match r {
        Ok(v) => if !truthy(v) {
            (st1, StmtR::Normal)
        } else {
            let (st2, rb) = exec_stmt(st1, body, tbl, fuel);
            match rb {
                StmtR::Normal => if fuel == 0 {
                    (st2, StmtR::Fail(RuntimeErrorV::DepthExceeded))
                } else {
                    exec_while(st2, condition, body, tbl, (fuel - 1) as nat)
                },
                _ => (st2, rb),
            }
        },
        Err(er) => (st1, StmtR::Fail(er)),
    }
}

/// Execution of a list of statements, in order; the first non-normal
/// outcome stops the list.
pub open spec fn exec_stmts(st: St, ss: Seq<Stmt>, tbl: Seq<(u64, usize)>, fuel: nat) -> (
    St,
    StmtR,
)
    decreases fuel, stmts_size(ss), 0int,
{
    if ss.len() == 0 {
        (st, StmtR::Normal)
    } else {
        let (st1, r) = exec_stmt(st, ss[0], tbl, fuel);
        match r {
            StmtR::Normal => exec_stmts(st1, ss.drop_first(), tbl, fuel),
            _ => (st1, r),
        }
    }
}

/// Execution of a statement list in a given frame: the cursor moves
/// there for the span of the list and is restored afterwards,
/// unconditionally.
pub open spec fn exec_block_in(
    st: St,
    ss: Seq<Stmt>,
    frame: int,
    tbl: Seq<(u64, usize)>,
    fuel: nat,
) -> (St, StmtR)
    decreases fuel, stmts_size(ss), 1int,
{
    let (st1, r) = exec_stmts(St { cur: frame, ..st }, ss, tbl, fuel);
    (St { cur: st.cur, ..st1 }, r)
}

/// The top-level run: statements execute one at a time; a user error in
/// one is recorded and the rest still run. An internal resolution fault
/// is a bug, not a user error: it is fatal and stops the run at once, as
/// does a `return` that escapes to the top level, which is recorded as
/// the same fault.
pub open spec fn interpret_s(st: St, ss: Seq<Stmt>, tbl: Seq<(u64, usize)>, fuel: nat) -> (
    St,
    Seq<RuntimeErrorV>,
)
    decreases fuel, stmts_size(ss), 2int,
{
    if ss.len() == 0 {
        (st, Seq::empty())
    } else {
        let (st1, r) = exec_stmt(st, ss[0], tbl, fuel);
        match r {
            StmtR::Normal => interpret_s(st1, ss.drop_first(), tbl, fuel),
            StmtR::Return(_) => (st1, seq![RuntimeErrorV::ResolutionFault]),
            StmtR::Fail(er) => if er is ResolutionFault {
                (st1, seq![er])
            } else {
                let (st2, errs) = interpret_s(st1, ss.drop_first(), tbl, fuel);
                (st2, seq![er] + errs)
            },
        }
    }
}

/// The outcome an executable statement hands back: normal completion or
/// a `return` carrying its value. Errors travel in the `Result` around
/// it.
pub enum Flow {
    Normal,
    Return(Object),
}

/// The model of an expression's executable result.
pub open spec fn val_res_view(r: Result<Object, RuntimeError>) -> Result<Val, RuntimeErrorV> {
    match r {
        Ok(o) => Ok(o@),
        Err(e) => Err(e@),
    }
}

/// The model of a statement's executable result.
pub open spec fn flow_view(r: Result<Flow, RuntimeError>) -> StmtR {
    match r {
        Ok(Flow::Normal) => StmtR::Normal,
        Ok(Flow::Return(o)) => StmtR::Return(o@),
        Err(e) => StmtR::Fail(e@),
    }
}

/// The models of the output lines.
pub open spec fn out_view(ss: Seq<String>) -> Seq<Seq<char>> {
    ss.map_values(|s: String| s@)
}

/// The models of a list of values.
pub open spec fn objs_view(os: Seq<Object>) -> Seq<Val> {
    os.map_values(|o: Object| o@)
}

/// The models of a list of reported runtime errors.
pub open spec fn rt_errs_view(es: Seq<RuntimeError>) -> Seq<RuntimeErrorV> {
    es.map_values(|e: RuntimeError| e@)
}

/// The evaluator: the frame arena, the global and current frame indices,
/// the resolver's binding table, the output collected so far, and the
/// clock reading taken at construction.
pub struct Interpreter {
    pub env: Env,
    pub globals: usize,
    pub current: usize,
    pub locals: Vec<(u64, usize)>,
    pub output: Vec<String>,
    pub clock: i64,
}

impl View for Interpreter {
    type V = St;

    open spec fn view(&self) -> St {
        St {
            frames: self.env@,
            cur: self.current as int,
            out: out_view(self.output@),
            clock: self.clock,
        }
    }
}

/// Relies on std::time::SystemTime::now and duration_since: the whole
/// seconds since the Unix epoch, never negative; zero where the host
/// clock reads before the epoch, saturated where it does not fit.
#[verifier::external_body]
fn clock_seconds() -> (r: i64)
    ensures
        r >= 0,
{
    match std::time::SystemTime::now().duration_since(std::time::UNIX_EPOCH) {
        Ok(d) => {
            let s = d.as_secs();
            if s > i64::MAX as u64 {
                i64::MAX
            } else {
                s as i64
            }
        },
        Err(_) => 0,
    }
}

impl Interpreter {
    /// The evaluator's structural well-formedness: the global frame
    /// exists at index zero and the cursor points inside the arena.
    pub open spec fn wf(self) -> bool {
        &&& self@.frames.len() >= 1
        &&& 0 <= self@.cur < self@.frames.len()
        &&& self.globals == 0
    }

    /// A fresh evaluator: one global frame pre-populated with the clock
    /// builtin, an empty binding table, no output, and the clock sampled
    /// now.
    pub fn new() -> (it: Interpreter)
        ensures
            it.wf(),
            it@.frames =~= seq![
                FrameV {
                    map: Map::<Seq<char>, Val>::empty().insert("clock"@, Val::Clock),
                    enclosing: None,
                },
            ],
            it@.cur == 0,
            it@.out =~= Seq::<Seq<char>>::empty(),
            it.locals@ =~= Seq::<(u64, usize)>::empty(),
            it@.clock >= 0,
    {
        let mut env = Env::new();
        let name: String = "clock".to_owned();
        env.define(0, &name, Object::Callable(crate::value::LoxCallable::Clock(crate::value::ClockFn)));
        let it = Interpreter {
            env,
            globals: 0,
            current: 0,
            locals: Vec::new(),
            output: Vec::new(),
            clock: clock_seconds(),
        };
        proof {
            assert(it@.out =~= Seq::<Seq<char>>::empty());
        }
        it
    }

    /// Reads the host clock anew: the clock builtin returns, for the rest
    /// of the run, the reading taken here. Nothing else changes.
    pub fn refresh_clock(&mut self)
        ensures
            final(self)@.clock >= 0,
            final(self)@ == (St { clock: final(self)@.clock, ..old(self)@ }),
            final(self).locals@ == old(self).locals@,
            final(self).current == old(self).current,
            final(self).globals == old(self).globals,
            final(self).wf() == old(self).wf(),
    {
        self.clock = clock_seconds();
    }

    /// Installs the binding table a resolver pass produced.
    pub fn resolve(&mut self, locals: Vec<(u64, usize)>)
        ensures
            final(self).locals@ == locals@,
            final(self)@ == old(self)@,
            final(self).globals == old(self).globals,
            final(self).wf() == old(self).wf(),
    {
        self.locals = locals;
    }

    /// The distance the binding table records for a node identity.
    fn lookup_local(&self, id: u64) -> (r: Option<usize>)
        ensures
            r == tbl_get(self.locals@, id),
    {
        let ghost es = self.locals@;
        let mut i: usize = self.locals.len();
        proof {
            assert(es.take(i as int) =~= es);
        }
        while i > 0
            invariant
                i <= es.len(),
                es == self.locals@,
                tbl_get(es, id) == tbl_get(es.take(i as int), id),
            decreases i,
        {
            i = i - 1;
            proof {
                assert(es.take(i + 1).drop_last() =~= es.take(i as int));
                assert(es.take(i + 1).last() == es[i as int]);
            }
            if self.locals[i].0 == id {
                return Some(self.locals[i].1);
            }
        }
        proof {
            assert(es.take(0) =~= Seq::<(u64, usize)>::empty());
        }
        None
    }

    /// Reads a variable as [`read_var`] says: through the binding table,
    /// or in the global frame.
    fn var_value(&self, name: &Token, id: u64) -> (r: Result<Object, RuntimeError>)
        requires
            self.wf(),
        ensures
            val_res_view(r) == read_var(self@, self.locals@, *name, id),
    {
        match self.lookup_local(id) {
            Some(d) => match self.env.ancestor(self.current, d) {
                Some(fi) => {
                    proof {
                        crate::environment::lemma_at_distance_in_bounds(
                            self@.frames,
                            self@.cur,
                            d as nat,
                        );
                    }
                    self.frame_value(fi, name)
                },
                None => Err(RuntimeError::ResolutionFault),
            },
            None => self.frame_value(self.globals, name),
        }
    }

    /// Reads a name in one frame, with the uninitialized-read check.
    fn frame_value(&self, fi: usize, name: &Token) -> (r: Result<Object, RuntimeError>)
        requires
            self.wf(),
            fi < self@.frames.len(),
        ensures
            val_res_view(r) == read_frame(self@, fi as int, *name),
    {
        match self.env.get_local(fi, &name.lexeme) {
            Some(v) => match v {
                Object::Nil => Err(
                    RuntimeError::UninitializedVariable {
                        line: name.line,
                        name: name.lexeme.clone(),
                    },
                ),
                _ => Ok(v),
            },
            None => Err(
                RuntimeError::UndefinedVariable { line: name.line, name: name.lexeme.clone() },
            ),
        }
    }

    /// Assigns a variable as [`assign_var`] says: through the binding
    /// table, or in the global frame where it is already bound.
    fn var_assign(&mut self, name: &Token, id: u64, v: Object) -> (r: Result<
        Object,
        RuntimeError,
    >)
        requires
            old(self).wf(),
        ensures
            final(self).wf(),
            final(self).locals@ == old(self).locals@,
            final(self)@.frames.len() == old(self)@.frames.len(),
            ({
                let (st1, r1) = assign_var(old(self)@, old(self).locals@, *name, id, v@);
                final(self)@ == st1 && val_res_view(r) == r1
            }),
    {
        match self.lookup_local(id) {
            Some(d) => match self.env.ancestor(self.current, d) {
                Some(fi) => {
                    proof {
                        crate::environment::lemma_at_distance_in_bounds(
                            self@.frames,
                            self@.cur,
                            d as nat,
                        );
                    }
                    let out = v.dup();
                    self.env.define(fi, &name.lexeme, v);
                    proof {
                        assert(self@ =~= assign_var(old(self)@, old(self).locals@, *name, id, out@).0);
                    }
                    Ok(out)
                },
                None => Err(RuntimeError::ResolutionFault),
            },
            None => {
                match self.env.get_local(self.globals, &name.lexeme) {
                    Some(_) => {
                        let out = v.dup();
                        self.env.define(self.globals, &name.lexeme, v);
                        proof {
                            assert(self@ =~= assign_var(
                                old(self)@,
                                old(self).locals@,
                                *name,
                                id,
                                out@,
                            ).0);
                        }
                        Ok(out)
                    },
                    None => Err(
                        RuntimeError::UndefinedVariable {
                            line: name.line,
                            name: name.lexeme.clone(),
                        },
                    ),
                }
            },
        }
    }
}

/// Lexicographic comparison of two strings by code point: the sign of
/// the comparison, as [`str_cmp`] gives it.
fn compare_strings(x: &String, y: &String) -> (c: i32)
    ensures
        c as int == str_cmp(x@, y@),
        -1 <= c <= 1,
{
    let xs = x.as_str();
    let ys = y.as_str();
    let la = xs.unicode_len();
    let lb = ys.unicode_len();
    let mut i: usize = 0;
    proof {
        assert(x@.skip(0) =~= x@);
        assert(y@.skip(0) =~= y@);
    }
    while i < la && i < lb
        invariant
            i <= la,
            i <= lb,
            la == x@.len(),
            lb == y@.len(),
            xs@ == x@,
            ys@ == y@,
            str_cmp(x@, y@) == str_cmp(x@.skip(i as int), y@.skip(i as int)),
        decreases la - i,
    {
        let ca = xs.get_char(i);
        let cb = ys.get_char(i);
        proof {
            assert(x@.skip(i as int)[0] == x@[i as int]);
            assert(y@.skip(i as int)[0] == y@[i as int]);
            assert(x@.skip(i as int).drop_first() =~= x@.skip(i + 1));
            assert(y@.skip(i as int).drop_first() =~= y@.skip(i + 1));
        }
        if ca < cb {
            return -1;
        }
        if cb < ca {
            return 1;
        }
        i = i + 1;
    }
    proof {
        assert(str_cmp(x@.skip(i as int), y@.skip(i as int)) == str_cmp(x@, y@));
    }
    if i < lb {
        -1
    } else if i < la {
        1
    } else {
        0
    }
}

/// Applies a binary operator to two evaluated operands, as
/// [`binary_op`] says.
fn apply_binary(operator: &Token, a: Object, b: Object) -> (r: Result<Object, RuntimeError>)
    ensures
        val_res_view(r) == binary_op(operator.token_type, operator.line as nat, a@, b@),
{
    match operator.token_type {
        TokenType::Greater | TokenType::GreaterEqual | TokenType::Less | TokenType::LessEqual => {
            let c: i32 = match (&a, &b) {
                (Object::Num(x), Object::Num(y)) => {
                    if *x < *y {
                        -1
                    } else if *x == *y {
                        0
                    } else {
                        1
                    }
                },
                (Object::Str(x), Object::Str(y)) => compare_strings(x, y),
                _ => {
                    return Err(RuntimeError::TypeMismatch { line: operator.line });
                },
            };
            match operator.token_type {
                TokenType::Greater => Ok(Object::Bool(c > 0)),
                TokenType::GreaterEqual => Ok(Object::Bool(c >= 0)),
                TokenType::Less => Ok(Object::Bool(c < 0)),
                _ => Ok(Object::Bool(c <= 0)),
            }
        },
        TokenType::BangEqual => Ok(Object::Bool(!a.equals(&b))),
        TokenType::EqualEqual => Ok(Object::Bool(a.equals(&b))),
        TokenType::Minus => match (&a, &b) {
            (Object::Num(x), Object::Num(y)) => Ok(Object::Num(x.wrapping_sub(*y))),
            _ => Err(RuntimeError::TypeMismatch { line: operator.line }),
        },
        TokenType::Plus => match (a, b) {
            (Object::Num(x), Object::Num(y)) => Ok(Object::Num(x.wrapping_add(y))),
            (Object::Str(x), Object::Str(y)) => Ok(Object::Str(x.concat(y.as_str()))),
            _ => Err(RuntimeError::TypeMismatch { line: operator.line }),
        },
        TokenType::Slash => match (&a, &b) {
            (Object::Num(x), Object::Num(y)) => {
                if *y == 0 {
                    Err(RuntimeError::TypeMismatch { line: operator.line })
                } else {
                    match x.checked_div(*y) {
                        Some(q) => Ok(Object::Num(q)),
                        None => Ok(Object::Num(i64::MIN)),
                    }
                }
            },
            _ => Err(RuntimeError::TypeMismatch { line: operator.line }),
        },
        TokenType::Star => match (&a, &b) {
            (Object::Num(x), Object::Num(y)) => Ok(Object::Num(x.wrapping_mul(*y))),
            _ => Err(RuntimeError::TypeMismatch { line: operator.line }),
        },
        _ => Ok(Object::Nil),
    }
}

impl Interpreter {
    #[verifier::loop_isolation(false)]
    /// Evaluates one expression against the current environment, as
    /// [`eval_expr`] says.
    pub fn evaluate(&mut self, e: &Expr, fuel: u64) -> (r: Result<Object, RuntimeError>)
        requires
            old(self).wf(),
        ensures
            final(self).wf(),
            final(self).locals@ == old(self).locals@,
            final(self).current == old(self).current,
            final(self).clock == old(self).clock,
            final(self)@.frames.len() >= old(self)@.frames.len(),
            ({
                let (st1, r1) = eval_expr(old(self)@, *e, old(self).locals@, fuel as nat);
                final(self)@ == st1 && val_res_view(r) == r1
            }),
        decreases fuel, expr_size(*e), 0int,
    {
        match e {
            Expr::Literal { value } => Ok(value.dup()),
            Expr::Grouping { expression } => self.evaluate(expression, fuel),
            Expr::Unary { operator, right } => {
                let v = match self.evaluate(right, fuel) {
                    Ok(v) => v,
                    Err(er) => {
                        return Err(er);
                    },
                };
                match operator.token_type {
                    TokenType::Minus => match v {
                        Object::Num(n) => Ok(Object::Num(0i64.wrapping_sub(n))),
                        _ => Err(RuntimeError::TypeMismatch { line: operator.line }),
                    },
                    TokenType::Bang => Ok(Object::Bool(!v.to_bool())),
                    _ => Ok(Object::Nil),
                }
            },
            Expr::Binary { left, operator, right } => {
                let a = match self.evaluate(left, fuel) {
                    Ok(v) => v,
                    Err(er) => {
                        return Err(er);
                    },
                };
                let b = match self.evaluate(right, fuel) {
                    Ok(v) => v,
                    Err(er) => {
                        return Err(er);
                    },
                };
                apply_binary(operator, a, b)
            },
            Expr::Logical { left, operator, right } => {
                let a = match self.evaluate(left, fuel) {
                    Ok(v) => v,
                    Err(er) => {
                        return Err(er);
                    },
                };
                let short = match operator.token_type {
                    TokenType::Or => a.to_bool(),
                    _ => !a.to_bool(),
                };
                if short {
                    Ok(a)
                } else {
                    self.evaluate(right, fuel)
                }
            },
            Expr::Variable { name, id } => self.var_value(name, *id),
            Expr::Assign { name, id, value } => {
                let v = match self.evaluate(value, fuel) {
                    Ok(v) => v,
                    Err(er) => {
                        return Err(er);
                    },
                };
                self.var_assign(name, *id, v)
            },
            Expr::Call { callee, paren, arguments } => {
                let c = match self.evaluate(callee, fuel) {
                    Ok(v) => v,
                    Err(er) => {
                        return Err(er);
                    },
                };
                // the callee must be callable before any argument runs
                let cal = match c {
                    Object::Callable(cal) => cal,
                    _ => {
                        return Err(RuntimeError::NotCallable { line: paren.line });
                    },
                };
                let ghost cv = cal@;
                let ghost all = arguments@;
                let ghost st_args = self@;
                let ghost tbl = old(self).locals@;
                let mut vals: Vec<Object> = Vec::new();
                let mut i: usize = 0;
                proof {
                    assert(all.skip(0) =~= all);
                    assert(objs_view(vals@) =~= Seq::<Val>::empty());
                }
                while i < arguments.len()
                    invariant
                        old(self).wf(),
                        self.wf(),
                        self.locals@ == old(self).locals@,
                        self.current == old(self).current,
                        self.clock == old(self).clock,
                        self@.frames.len() >= old(self)@.frames.len(),
                        tbl == old(self).locals@,
                        all == arguments@,
                        i <= arguments.len(),
                        ({
                            let (stf, rf) = eval_exprs(st_args, all, tbl, fuel as nat);
                            let (st2, rr) = eval_exprs(self@, all.skip(i as int), tbl, fuel as nat);
                            stf == st2 && rf == (match rr {
                                Ok(vs) => Ok(objs_view(vals@) + vs),
                                Err(er) => Err::<Seq<Val>, RuntimeErrorV>(er),
                            })
                        }),
                    decreases arguments.len() - i,
                {
                    proof {
                        crate::resolver::lemma_exprs_size_elem(all, i as int);
                        assert(all.skip(i as int)[0] == all[i as int]);
                        assert(all.skip(i as int).drop_first() =~= all.skip(i + 1));
                    }
                    let ghost vals_pre = vals@;
                    match self.evaluate(&arguments[i], fuel) {
                        Ok(v) => {
                            vals.push(v);
                            proof {
                                assert(objs_view(vals@) =~= objs_view(vals_pre).push(v@));
                                let (st2, rr) = eval_exprs(
                                    self@,
                                    all.skip(i + 1),
                                    tbl,
                                    fuel as nat,
                                );
                                match rr {
                                    Ok(vs) => {
                                        assert(objs_view(vals_pre) + (seq![v@] + vs) =~= objs_view(
                                            vals@,
                                        ) + vs);
                                    },
                                    Err(_) => {},
                                }
                            }
                            i = i + 1;
                        },
                        Err(er) => {
                            return Err(er);
                        },
                    }
                }
                proof {
                    assert(all.skip(arguments@.len() as int) =~= Seq::<Expr>::empty());
                    assert(objs_view(vals@) + Seq::<Val>::empty() =~= objs_view(vals@));
                }
                let ghost st_args2 = self@;
                let ghost vals_done = vals;
                let out = self.call_object(cal, vals, paren.line, fuel);
                proof {
                    let pr = eval_expr(old(self)@, *e, old(self).locals@, fuel as nat);
                    let (st1x, rcx) = eval_expr(old(self)@, **callee, old(self).locals@, fuel as nat);
                    assert(st1x == st_args);
                    assert(rcx == Ok::<Val, RuntimeErrorV>(cv));
                    assert(is_callable(cv));
                    let (stax, rax) = eval_exprs(st1x, arguments@, old(self).locals@, fuel as nat);
                    assert(stax == st_args2);
                    assert(rax == Ok::<Seq<Val>, RuntimeErrorV>(objs_view(vals_done@)));
                    assert(pr == call_value(stax, cv, objs_view(vals_done@), paren.line as nat, old(self).locals@, fuel as nat));
                }
                out
            },
        }
    }

    /// Invokes an evaluated callable on evaluated arguments, as
    /// [`call_value`] says: arity first, then a fresh frame whose parent
    /// is the captured one, one unit of fuel spent on the body.
    #[verifier::loop_isolation(false)]
    fn call_object(
        &mut self,
        callee: crate::value::LoxCallable,
        args: Vec<Object>,
        line: usize,
        fuel: u64,
    ) -> (r: Result<Object, RuntimeError>)
        requires
            old(self).wf(),
        ensures
            final(self).wf(),
            final(self).locals@ == old(self).locals@,
            final(self).current == old(self).current,
            final(self).clock == old(self).clock,
            final(self)@.frames.len() >= old(self)@.frames.len(),
            ({
                let (st1, r1) = call_value(
                    old(self)@,
                    callee@,
                    objs_view(args@),
                    line as nat,
                    old(self).locals@,
                    fuel as nat,
                );
                final(self)@ == st1 && val_res_view(r) == r1
            }),
        decreases fuel, 0int, 0int,
    {
        match callee {
            crate::value::LoxCallable::Clock(_) => {
                if args.len() != 0 {
                    return Err(
                        RuntimeError::ArityMismatch { line, expected: 0, actual: args.len() },
                    );
                }
                Ok(Object::Num(self.clock))
            },
            crate::value::LoxCallable::Function(f) => {
                if args.len() != f.params.len() {
                    return Err(
                        RuntimeError::ArityMismatch {
                            line,
                            expected: f.params.len(),
                            actual: args.len(),
                        },
                    );
                }
                if fuel == 0 {
                    return Err(RuntimeError::DepthExceeded);
                }
                let fi = self.env.new_enclosing(f.closure);
                let ghost st0 = old(self)@;
                let ghost ps = f.params@;
                let ghost vs = objs_view(args@);
                let mut i: usize = 0;
                proof {
                    assert(ps.take(0) =~= Seq::<Token>::empty());
                    assert(vs.take(0) =~= Seq::<Val>::empty());
                    assert(self@.frames =~= st0.frames.push(
                        FrameV {
                            map: bind_params(ps.take(0), vs.take(0)),
                            enclosing: Some(f.closure as int),
                        },
                    ));
                }
                while i < args.len()
                    invariant
                        old(self).wf(),
                        self.wf(),
                        i <= args.len(),
                        args.len() == f.params@.len(),
                        ps == f.params@,
                        vs == objs_view(args@),
                        vs.len() == args.len(),
                        fi == st0.frames.len(),
                        st0 == old(self)@,
                        self.locals@ == old(self).locals@,
                        self.current == old(self).current,
                        self.clock == old(self).clock,
                        self.output@ == old(self).output@,
                        self@.frames =~= st0.frames.push(
                            FrameV {
                                map: bind_params(ps.take(i as int), vs.take(i as int)),
                                enclosing: Some(f.closure as int),
                            },
                        ),
                    decreases args.len() - i,
                {
                    let ghost pre_frames = self@.frames;
                    self.env.define(fi, &f.params[i].lexeme, args[i].dup());
                    proof {
                        assert(vs[i as int] == args@[i as int]@);
                        assert(ps.take(i + 1).drop_last() =~= ps.take(i as int));
                        assert(vs.take(i + 1).drop_last() =~= vs.take(i as int));
                        assert(ps.take(i + 1).last() == ps[i as int]);
                        assert(vs.take(i + 1)[ps.take(i + 1).len() - 1] == vs[i as int]);
                        assert(self@.frames =~= st0.frames.push(
                            FrameV {
                                map: bind_params(ps.take(i + 1), vs.take(i + 1)),
                                enclosing: Some(f.closure as int),
                            },
                        ));
                    }
                    i = i + 1;
                }
                proof {
                    assert(ps.take(args.len() as int) =~= ps);
                    assert(vs.take(args.len() as int) =~= vs);
                }
                let outcome = self.execute_block(&f.body, fi, fuel - 1);
                proof {
                    let entered = St {
                        frames: st0.frames.push(
                            FrameV {
                                map: bind_params(ps, vs),
                                enclosing: Some(f.closure as int),
                            },
                        ),
                        cur: st0.frames.len() as int,
                        ..st0
                    };
                    let (st2, r2) = exec_stmts(entered, f.body@, old(self).locals@, (fuel - 1) as nat);
                    assert(self@ =~= St { cur: st0.cur, ..st2 });
                }
                match outcome {
                    Ok(Flow::Normal) => Ok(Object::Nil),
                    Ok(Flow::Return(v)) => Ok(v),
                    Err(er) => Err(er),
                }
            },
        }
    }

    /// Runs a statement list with the cursor moved to `frame`, restoring
    /// the cursor unconditionally, as [`exec_block_in`] says.
    #[verifier::loop_isolation(false)]
    pub fn execute_block(&mut self, statements: &Vec<Stmt>, frame: usize, fuel: u64) -> (r: Result<
        Flow,
        RuntimeError,
    >)
        requires
            old(self).wf(),
            frame < old(self)@.frames.len(),
        ensures
            final(self).wf(),
            final(self).locals@ == old(self).locals@,
            final(self).current == old(self).current,
            final(self).clock == old(self).clock,
            final(self)@.frames.len() >= old(self)@.frames.len(),
            ({
                let (st1, r1) = exec_block_in(
                    old(self)@,
                    statements@,
                    frame as int,
                    old(self).locals@,
                    fuel as nat,
                );
                final(self)@ == st1 && flow_view(r) == r1
            }),
        decreases fuel, stmts_size(statements@), 1int,
    {
        let saved = self.current;
        self.current = frame;
        let ghost st_in = self@;
        let ghost tbl = old(self).locals@;
        let ghost all = statements@;
        let mut i: usize = 0;
        proof {
            assert(all.skip(0) =~= all);
        }
        while i < statements.len()
            invariant
                old(self).wf(),
                self.wf(),
                i <= statements.len(),
                all == statements@,
                tbl == old(self).locals@,
                self.locals@ == old(self).locals@,
                self.clock == old(self).clock,
                self@.frames.len() >= st_in.frames.len(),
                st_in.frames.len() == old(self)@.frames.len(),
                saved == old(self).current,
                ({
                    let (stf, rf) = exec_stmts(st_in, all, tbl, fuel as nat);
                    let (st2, rr) = exec_stmts(self@, all.skip(i as int), tbl, fuel as nat);
                    stf == st2 && rf == rr
                }),
            decreases statements.len() - i,
        {
            proof {
                crate::resolver::lemma_stmts_size_elem(all, i as int);
                assert(all.skip(i as int)[0] == all[i as int]);
                assert(all.skip(i as int).drop_first() =~= all.skip(i + 1));
            }
            match self.execute(&statements[i], fuel) {
                Ok(Flow::Normal) => {
                    i = i + 1;
                },
                Ok(Flow::Return(v)) => {
                    let ghost before = self@;
                    self.current = saved;
                    proof {
                        assert(self@ =~= St { cur: old(self)@.cur, ..before });
                    }
                    return Ok(Flow::Return(v));
                },
                Err(er) => {
                    let ghost before = self@;
                    self.current = saved;
                    proof {
                        assert(self@ =~= St { cur: old(self)@.cur, ..before });
                    }
                    return Err(er);
                },
            }
        }
        proof {
            assert(all.skip(statements@.len() as int) =~= Seq::<Stmt>::empty());
        }
        let ghost before = self@;
        self.current = saved;
        proof {
            assert(self@ =~= St { cur: old(self)@.cur, ..before });
        }
        Ok(Flow::Normal)
    }

    #[verifier::loop_isolation(false)]
    /// Executes one statement, as [`exec_stmt`] says.
    pub fn execute(&mut self, s: &Stmt, fuel: u64) -> (r: Result<Flow, RuntimeError>)
        requires
            old(self).wf(),
        ensures
            final(self).wf(),
            final(self).locals@ == old(self).locals@,
            final(self).current == old(self).current,
            final(self).clock == old(self).clock,
            final(self)@.frames.len() >= old(self)@.frames.len(),
            ({
                let (st1, r1) = exec_stmt(old(self)@, *s, old(self).locals@, fuel as nat);
                final(self)@ == st1 && flow_view(r) == r1
            }),
        decreases fuel, stmt_size(*s), 1int,
    {
        match s {
            Stmt::Expression { expression } => {
                match self.evaluate(expression, fuel) {
                    Ok(_) => Ok(Flow::Normal),
                    Err(er) => Err(er),
                }
            },
            Stmt::Print { expression } => {
                match self.evaluate(expression, fuel) {
                    Ok(v) => {
                        let ghost pre = self@;
                        self.output.push(v.to_display());
                        proof {
                            assert(self@.out =~= pre.out.push(val_display(v@)));
                            assert(self@ =~= St { out: pre.out.push(val_display(v@)), ..pre });
                        }
                        Ok(Flow::Normal)
                    },
                    Err(er) => Err(er),
                }
            },
            Stmt::Var { name, initializer } => {
                let v = match initializer {
                    Some(e) => match self.evaluate(e, fuel) {
                        Ok(v) => v,
                        Err(er) => {
                            return Err(er);
                        },
                    },
                    None => Object::Nil,
                };
                let ghost pre = self@;
                self.env.define(self.current, &name.lexeme, v);
                proof {
                    assert(self@ =~= st_define(pre, name.lexeme@, v@));
                }
                Ok(Flow::Normal)
            },
            Stmt::Block { statements } => {
                let parent = self.current;
                let fi = self.env.new_enclosing(parent);
                let r = self.execute_block(statements, fi, fuel);
                proof {
                    let (st1, r1) = exec_stmt(old(self)@, *s, old(self).locals@, fuel as nat);
                    assert(self@ =~= st1);
                }
                r
            },
            Stmt::If { condition, then_branch, else_branch } => {
                let c = match self.evaluate(condition, fuel) {
                    Ok(v) => v,
                    Err(er) => {
                        return Err(er);
                    },
                };
                if c.to_bool() {
                    self.execute(then_branch, fuel)
                } else {
                    match else_branch {
                        Some(e) => self.execute(e, fuel),
                        None => Ok(Flow::Normal),
                    }
                }
            },
            Stmt::While { condition, body } => {
                let mut fuel_left = fuel;
                loop
                    invariant
                        old(self).wf(),
                        self.wf(),
                        fuel_left <= fuel,
                        self.locals@ == old(self).locals@,
                        self.current == old(self).current,
                        self.clock == old(self).clock,
                        self@.frames.len() >= old(self)@.frames.len(),
                        ({
                            let (stf, rf) = exec_while(
                                old(self)@,
                                *condition,
                                **body,
                                old(self).locals@,
                                fuel as nat,
                            );
                            let (st2, rr) = exec_while(
                                self@,
                                *condition,
                                **body,
                                old(self).locals@,
                                fuel_left as nat,
                            );
                            stf == st2 && rf == rr
                        }),
                    decreases fuel_left,
                {
                    let c = match self.evaluate(condition, fuel_left) {
                        Ok(v) => v,
                        Err(er) => {
                            return Err(er);
                        },
                    };
                    if !c.to_bool() {
                        return Ok(Flow::Normal);
                    }
                    match self.execute(body, fuel_left) {
                        Ok(Flow::Normal) => {},
                        Ok(Flow::Return(v)) => {
                            return Ok(Flow::Return(v));
                        },
                        Err(er) => {
                            return Err(er);
                        },
                    }
                    if fuel_left == 0 {
                        return Err(RuntimeError::DepthExceeded);
                    }
                    fuel_left = fuel_left - 1;
                }
            },
            Stmt::Function { name, params, body } => {
                let fun = crate::value::LoxFunction {
                    name: name.lexeme.clone(),
                    params: crate::value::rc_share(params),
                    body: crate::value::rc_share(body),
                    closure: self.current,
                };
                let v = Object::Callable(crate::value::LoxCallable::Function(fun));
                let ghost pre = self@;
                self.env.define(self.current, &name.lexeme, v);
                proof {
                    assert(self@ =~= st_define(
                        pre,
                        name.lexeme@,
                        Val::Fun {
                            name: name.lexeme@,
                            params: params@,
                            body: body@,
                            closure: pre.cur,
                        },
                    ));
                }
                Ok(Flow::Normal)
            },
            Stmt::Return { value, .. } => {
                match value {
                    Some(e) => match self.evaluate(e, fuel) {
                        Ok(v) => Ok(Flow::Return(v)),
                        Err(er) => Err(er),
                    },
                    None => Ok(Flow::Return(Object::Nil)),
                }
            },
        }
    }

    /// Runs a program, as [`interpret_s`] says: top-level statements
    /// execute one at a time, and a user error in one is recorded while
    /// the rest still run. An internal resolution fault — a recorded
    /// distance that does not fit the environment, or a `return` escaping
    /// to the top level — is a bug, not a user error: the run stops there.
    /// Returns the errors in source order.
    #[verifier::loop_isolation(false)]
    pub fn interpret(&mut self, statements: &Vec<Stmt>, fuel: u64) -> (r: Vec<RuntimeError>)
        requires
            old(self).wf(),
        ensures
            final(self).wf(),
            final(self).locals@ == old(self).locals@,
            final(self).current == old(self).current,
            final(self).clock == old(self).clock,
            final(self)@.frames.len() >= old(self)@.frames.len(),
            ({
                let (st1, errs) = interpret_s(
                    old(self)@,
                    statements@,
                    old(self).locals@,
                    fuel as nat,
                );
                final(self)@ == st1 && rt_errs_view(r@) == errs
            }),
    {
        let ghost all = statements@;
        let ghost tbl = old(self).locals@;
        let mut reported: Vec<RuntimeError> = Vec::new();
        let mut i: usize = 0;
        proof {
            assert(all.skip(0) =~= all);
            assert(rt_errs_view(reported@) =~= Seq::<RuntimeErrorV>::empty());
        }
        while i < statements.len()
            invariant
                old(self).wf(),
                self.wf(),
                i <= statements.len(),
                all == statements@,
                tbl == old(self).locals@,
                self.locals@ == old(self).locals@,
                self.current == old(self).current,
                self.clock == old(self).clock,
                self@.frames.len() >= old(self)@.frames.len(),
                ({
                    let (stf, ef) = interpret_s(old(self)@, all, tbl, fuel as nat);
                    let (st2, er) = interpret_s(self@, all.skip(i as int), tbl, fuel as nat);
                    stf == st2 && ef == rt_errs_view(reported@) + er
                }),
            decreases statements.len() - i,
        {
            proof {
                crate::resolver::lemma_stmts_size_elem(all, i as int);
                assert(all.skip(i as int)[0] == all[i as int]);
                assert(all.skip(i as int).drop_first() =~= all.skip(i + 1));
            }
            let ghost reported_pre = reported@;
            match self.execute(&statements[i], fuel) {
                Ok(Flow::Normal) => {},
                Ok(Flow::Return(_)) => {
                    reported.push(RuntimeError::ResolutionFault);
                    proof {
                        assert(rt_errs_view(reported@) =~= rt_errs_view(reported_pre).push(
                            RuntimeErrorV::ResolutionFault,
                        ));
                        assert(rt_errs_view(reported_pre) + seq![
                            RuntimeErrorV::ResolutionFault,
                        ] =~= rt_errs_view(reported@));
                    }
                    return reported;
                },
                Err(er) => {
                    let fatal = matches!(er, RuntimeError::ResolutionFault);
                    let ghost erv = er@;
                    reported.push(er);
                    proof {
                        assert(rt_errs_view(reported@) =~= rt_errs_view(reported_pre).push(erv));
                    }
                    if fatal {
                        proof {
                            assert(rt_errs_view(reported_pre) + seq![erv] =~= rt_errs_view(
                                reported@,
                            ));
                        }
                        return reported;
                    }
                    proof {
                        let (st2, er2) = interpret_s(self@, all.skip(i + 1), tbl, fuel as nat);
                        assert(rt_errs_view(reported_pre) + (seq![erv] + er2) =~= rt_errs_view(
                            reported@,
                        ) + er2);
                    }
                },
            }
            i = i + 1;
        }
        proof {
            assert(all.skip(statements@.len() as int) =~= Seq::<Stmt>::empty());
            let (stf, ef) = interpret_s(old(self)@, all, tbl, fuel as nat);
            assert(rt_errs_view(reported@) + Seq::<RuntimeErrorV>::empty() =~= rt_errs_view(
                reported@,
            ));
        }
        reported
    }
}

} // verus!
