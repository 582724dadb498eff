//! Runtime values: a closed tagged union of string, number, boolean,
//! callable and nil, together with its mathematical model [`Val`].
//!
//! Numbers are signed 64-bit integers with wrapping arithmetic; equality,
//! ordering and truthiness follow the language rules: `nil` and `false`
//! are falsy, everything else is truthy; ordering is defined only between
//! two numbers or two strings.

use vstd::prelude::*;
use vstd::string::StringExecFns;

use crate::ast::Stmt;
use crate::token::Token;

verus! {

/// The host-provided builtin that reports the time, in seconds.
#[derive(Clone, Copy)]
pub struct ClockFn;

/// A user-defined function value: the declaration's name, parameters and
/// body, plus the index of the environment frame captured at the point of
/// definition. Calling it later reuses that frame as the parent of a
/// fresh per-call frame.
pub struct LoxFunction {
    pub name: String,
    pub params: std::rc::Rc<Vec<Token>>,
    pub body: std::rc::Rc<Vec<Stmt>>,
    pub closure: usize,
}

/// Anything invocable: a user-defined function or a host builtin.
pub enum LoxCallable {
    Clock(ClockFn),
    Function(LoxFunction),
}

/// A runtime value.
pub enum Object {
    Str(String),
    Num(i64),
    Bool(bool),
    Callable(LoxCallable),
    Nil,
}

/// The mathematical model of a runtime value.
pub enum Val {
    Str(Seq<char>),
    Num(i64),
    Bool(bool),
    Clock,
    Fun { name: Seq<char>, params: Seq<Token>, body: Seq<Stmt>, closure: int },
    Nil,
}

impl View for LoxCallable {
    type V = Val;

    open spec fn view(&self) -> Val {
        match self {
            LoxCallable::Clock(_) => Val::Clock,
            LoxCallable::Function(f) => Val::Fun {
                name: f.name@,
                params: f.params@,
                body: f.body@,
                closure: f.closure as int,
            },
        }
    }
}

impl View for Object {
    type V = Val;

    open spec fn view(&self) -> Val {
        match self {
            Object::Str(s) => Val::Str(s@),
            Object::Num(n) => Val::Num(*n),
            Object::Bool(b) => Val::Bool(*b),
            Object::Callable(c) => c@,
            Object::Nil => Val::Nil,
        }
    }
}

/// Truthiness: `nil` and `false` are falsy; everything else is truthy.
pub open spec fn truthy(v: Val) -> bool {
    match v {
        Val::Nil => false,
        Val::Bool(b) => b,
        _ => true,
    }
}

/// Language-level equality: same-variant value equality; `nil` equals
/// `nil`; cross-variant pairs and callables are never equal.
pub open spec fn val_eq(a: Val, b: Val) -> bool {
    match a {
        Val::Num(x) => b is Num && x == b->Num_0,
        Val::Str(x) => b is Str && x == b->Str_0,
        Val::Bool(x) => b is Bool && x == b->Bool_0,
        Val::Nil => b is Nil,
        _ => false,
    }
}

impl Object {
    pub fn to_str(&self) -> (r: Option<String>)
        ensures
            match r {
                Some(s) => self@ is Str && s@ == self@->Str_0,
                None => !(self@ is Str),
            },
    {
        match self {
            Object::Str(s) => Some(s.clone()),
            _ => None,
        }
    }

    pub fn is_str(&self) -> (r: bool)
        ensures
            r == (self@ is Str),
    {
        match self {
            Object::Str(_) => true,
            _ => false,
        }
    }

    pub fn to_num(&self) -> (r: Option<i64>)
        ensures
            match r {
                Some(n) => self@ == Val::Num(n),
                None => !(self@ is Num),
            },
    {
        match self {
            Object::Num(n) => Some(*n),
            _ => None,
        }
    }

    pub fn is_num(&self) -> (r: bool)
        ensures
            r == (self@ is Num),
    {
        match self {
            Object::Num(_) => true,
            _ => false,
        }
    }

    /// Truthiness of this value.
    pub fn to_bool(&self) -> (r: bool)
        ensures
            r == truthy(self@),
    {
        match self {
            Object::Bool(b) => *b,
            Object::Nil => false,
            _ => true,
        }
    }

    /// Language-level equality with another value.
    pub fn equals(&self, other: &Object) -> (r: bool)
        ensures
            r == val_eq(self@, other@),
    {
        match self {
            Object::Num(a) => match other {
                Object::Num(b) => a == b,
                _ => false,
            },
            Object::Str(a) => match other {
                Object::Str(b) => *a == *b,
                _ => false,
            },
            Object::Bool(a) => match other {
                Object::Bool(b) => a == b,
                _ => false,
            },
            Object::Nil => match other {
                Object::Nil => true,
                _ => false,
            },
            Object::Callable(_) => false,
        }
    }

    /// The display form of this value.
    pub fn to_display(&self) -> (s: String)
        ensures
            s@ == val_display(self@),
    {
        match self {
            Object::Str(s) => s.clone(),
            Object::Num(n) => crate::numfmt::i64_to_string(*n),
            Object::Bool(b) => if *b {
                "true".to_owned()
            } else {
                "false".to_owned()
            },
            Object::Callable(LoxCallable::Clock(_)) => "<fn>".to_owned(),
            Object::Callable(LoxCallable::Function(f)) => {
                let mut s = "<fn> ".to_owned();
                s.append(f.name.as_str());
                s
            },
            Object::Nil => "nil".to_owned(),
        }
    }

    /// The callable inside this value, exactly where it holds one.
    pub fn as_callable(&self) -> (r: Result<LoxCallable, crate::errors::RuntimeError>)
        ensures
            match r {
                Ok(c) => c@ == self@ && (self@ is Clock || self@ is Fun),
                Err(e) => !(self@ is Clock) && !(self@ is Fun) && e@
                    == (crate::errors::RuntimeErrorV::NotCallable { line: 0 }),
            },
    {
        match self {
            Object::Callable(c) => Ok(c.dup()),
            _ => Err(crate::errors::RuntimeError::NotCallable { line: 0 }),
        }
    }

    /// A copy of the value, equal to the original. Function values share
    /// their declaration and captured frame with the original, as closures
    /// require.
    pub fn dup(&self) -> (r: Object)
        ensures
            r == *self,
    {
        match self {
            Object::Str(s) => Object::Str(s.clone()),
            Object::Num(n) => Object::Num(*n),
            Object::Bool(b) => Object::Bool(*b),
            Object::Callable(c) => Object::Callable(c.dup()),
            Object::Nil => Object::Nil,
        }
    }
}

impl LoxCallable {
    /// The number of arguments this callable requires.
    pub fn arity(&self) -> (r: usize)
        ensures
            r == spec_arity(self@),
    {
        match self {
            LoxCallable::Clock(_) => 0,
            LoxCallable::Function(f) => f.params.len(),
        }
    }

    /// A copy of the callable, equal to the original.
    pub fn dup(&self) -> (r: LoxCallable)
        ensures
            r == *self,
    {
        match self {
            LoxCallable::Clock(c) => LoxCallable::Clock(*c),
            LoxCallable::Function(f) => LoxCallable::Function(LoxFunction {
                name: f.name.clone(),
                params: rc_share(&f.params),
                body: rc_share(&f.body),
                closure: f.closure,
            }),
        }
    }
}

/// The display form of a value, as `print` writes it.
pub open spec fn val_display(v: Val) -> Seq<char> {
    match v {
        Val::Str(s) => s,
        Val::Num(n) => crate::numfmt::num_display(n as int),
        Val::Bool(b) => if b {
            "true"@
        } else {
            "false"@
        },
        Val::Clock => "<fn>"@,
        Val::Fun { name, .. } => "<fn> "@ + name,
        Val::Nil => "nil"@,
    }
}

/// The declared arity of a callable value; zero for values that are not
/// callable at all (callers rule those out first).
pub open spec fn spec_arity(v: Val) -> nat {
    match v {
        Val::Clock => 0,
        Val::Fun { params, .. } => params.len(),
        _ => 0,
    }
}

/// Relies on std::rc::Rc::clone: the returned handle refers to the same
/// allocation, so it carries the same value as the original.
#[verifier::external_body]
pub fn rc_share<T>(rc: &std::rc::Rc<T>) -> (r: std::rc::Rc<T>)
    ensures
        r == *rc,
{
    std::rc::Rc::clone(rc)
}

} // verus!
