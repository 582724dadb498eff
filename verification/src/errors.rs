//! The error taxonomy of the core: static resolution errors, runtime
//! errors, and environment lookup failures, each with a mathematical
//! model used by the contracts.
//!
//! Exact message formatting belongs to the host's reporting layer; the
//! core carries the kind, the source line, and the offending name or the
//! arity counts.

use vstd::prelude::*;

verus! {

/// An error found by the static resolver pass. The pass reports and
/// continues, so a run can surface several of these.
#[derive(Debug)]
pub enum ResolveError {
    /// A variable's initializer reads the variable being declared.
    SelfReferentialInitializer { line: usize, name: String },
    /// Two declarations of one name in the same local scope.
    DuplicateDeclaration { line: usize, name: String },
    /// A `return` statement outside any function body.
    ReturnOutsideFunction { line: usize },
}

/// Model of a resolver error.
pub enum ResolveErrorV {
    SelfReferentialInitializer { line: nat, name: Seq<char> },
    DuplicateDeclaration { line: nat, name: Seq<char> },
    ReturnOutsideFunction { line: nat },
}

impl View for ResolveError {
    type V = ResolveErrorV;

    open spec fn view(&self) -> ResolveErrorV {
        match self {
            ResolveError::SelfReferentialInitializer { line, name } =>
                ResolveErrorV::SelfReferentialInitializer { line: *line as nat, name: name@ },
            ResolveError::DuplicateDeclaration { line, name } =>
                ResolveErrorV::DuplicateDeclaration { line: *line as nat, name: name@ },
            ResolveError::ReturnOutsideFunction { line } =>
                ResolveErrorV::ReturnOutsideFunction { line: *line as nat },
        }
    }
}

/// A runtime error. Each terminates the top-level statement that raised
/// it; later top-level statements still execute.
#[derive(Debug)]
pub enum RuntimeError {
    /// A read or assignment of a name never declared in any reachable scope.
    UndefinedVariable { line: usize, name: String },
    /// A read of a declared variable that still holds the nil sentinel.
    UninitializedVariable { line: usize, name: String },
    /// An operator applied to operands of the wrong kind.
    TypeMismatch { line: usize },
    /// A call whose callee is not a callable value.
    NotCallable { line: usize },
    /// A call with the wrong number of arguments.
    ArityMismatch { line: usize, expected: usize, actual: usize },
    /// Internal inconsistency between the resolver and the evaluator: a
    /// recorded scope distance exceeds the environment chain. A fault of
    /// the embedding program, not of the interpreted one.
    ResolutionFault,
    /// The recursion depth guard ran out before evaluation finished.
    DepthExceeded,
}

/// Model of a runtime error.
pub enum RuntimeErrorV {
    UndefinedVariable { line: nat, name: Seq<char> },
    UninitializedVariable { line: nat, name: Seq<char> },
    TypeMismatch { line: nat },
    NotCallable { line: nat },
    ArityMismatch { line: nat, expected: nat, actual: nat },
    ResolutionFault,
    DepthExceeded,
}

impl View for RuntimeError {
    type V = RuntimeErrorV;

    open spec fn view(&self) -> RuntimeErrorV {
        match self {
            RuntimeError::UndefinedVariable { line, name } =>
                RuntimeErrorV::UndefinedVariable { line: *line as nat, name: name@ },
            RuntimeError::UninitializedVariable { line, name } =>
                RuntimeErrorV::UninitializedVariable { line: *line as nat, name: name@ },
            RuntimeError::TypeMismatch { line } =>
                RuntimeErrorV::TypeMismatch { line: *line as nat },
            RuntimeError::NotCallable { line } =>
                RuntimeErrorV::NotCallable { line: *line as nat },
            RuntimeError::ArityMismatch { line, expected, actual } =>
                RuntimeErrorV::ArityMismatch {
                    line: *line as nat,
                    expected: *expected as nat,
                    actual: *actual as nat,
                },
            RuntimeError::ResolutionFault => RuntimeErrorV::ResolutionFault,
            RuntimeError::DepthExceeded => RuntimeErrorV::DepthExceeded,
        }
    }
}

/// A failure of an environment operation: the searched name is not
/// defined in the frame chain.
#[derive(Debug)]
pub enum EnvError {
    ValueNotFound { line: usize, name: String },
}

/// Model of an environment error.
pub enum EnvErrorV {
    ValueNotFound { line: nat, name: Seq<char> },
}

impl View for EnvError {
    type V = EnvErrorV;

    open spec fn view(&self) -> EnvErrorV {
        match self {
            EnvError::ValueNotFound { line, name } =>
                EnvErrorV::ValueNotFound { line: *line as nat, name: name@ },
        }
    }
}

} // verus!
