//! Code generation errors: a construct the emitter does not lower, a name with
//! no binding, or a malformed input. The emitting functions of this library
//! report them as `Err` values, which the caller reports like any other
//! diagnostic.

use crate::text::owned;
use vstd::prelude::*;
use vstd::string::StringExecFns;

verus! {

/// A code generation failure.
#[derive(Debug, Clone, PartialEq, Eq)]
pub enum CodegenError {
    /// A language construct the textual-IR backend does not lower yet.
    Unsupported(String),
    /// A reference to a name with no binding in scope.
    UnknownName(String),
    /// A structurally invalid program (e.g. a call with no callee).
    Invalid(String),
}

impl CodegenError {
    /// The rendered diagnostic.
    pub open spec fn message(self) -> Seq<char> {
        match self {
            CodegenError::Unsupported(w) => "codegen: unsupported construct: "@ + w@,
            CodegenError::UnknownName(n) => "codegen: unknown name `"@ + n@ + "`"@,
            CodegenError::Invalid(w) => "codegen: invalid program: "@ + w@,
        }
    }

    /// An unsupported construct the backend does not lower yet.
    pub fn unsupported(what: &str) -> (r: CodegenError)
        ensures
            r matches CodegenError::Unsupported(w) && w@ == what@,
    {
        CodegenError::Unsupported(owned(what))
    }

    /// A reference to an unknown name (function, constructor, variable).
    pub fn unknown(name: &str) -> (r: CodegenError)
        ensures
            r matches CodegenError::UnknownName(n) && n@ == name@,
    {
        CodegenError::UnknownName(owned(name))
    }

    /// A program that is structurally invalid for codegen.
    pub fn invalid(why: &str) -> (r: CodegenError)
        ensures
            r matches CodegenError::Invalid(w) && w@ == why@,
    {
        CodegenError::Invalid(owned(why))
    }

    /// The diagnostic text, e.g. ``codegen: unknown name `n` ``.
    pub fn to_string(&self) -> (r: String)
        ensures
            r@ == self.message(),
    {
        match self {
            CodegenError::Unsupported(w) => {
                let mut r = owned("codegen: unsupported construct: ");
                r.append(w.as_str());
                r
            },
            CodegenError::UnknownName(n) => {
                let mut r = owned("codegen: unknown name `");
                r.append(n.as_str());
                r.append("`");
                r
            },
            CodegenError::Invalid(w) => {
                let mut r = owned("codegen: invalid program: ");
                r.append(w.as_str());
                r
            },
        }
    }
}

} // verus!
