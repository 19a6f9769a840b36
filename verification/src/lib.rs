//! LLVM IR text generation for Osprey: the type vocabulary, the layout
//! metadata, the spellings and the analyses the backend is built from.

pub mod aggregate;
pub mod arc;
pub mod anybox;
pub mod ast;
pub mod builder;
pub mod call;
pub mod closure;
pub mod collections;
pub mod conv;
pub mod coverage;
pub mod debug_info;
pub mod effects;
pub mod error;
pub mod expr;
pub mod extern_call;
pub mod freevars;
pub mod gpu;
pub mod gpu_kernel;
pub mod listlit;
pub mod loops;
pub mod llty;
pub mod meta;
pub mod monofn;
pub mod names;
pub mod pattern;
pub mod result;
pub mod runtime;
pub mod text;

pub use error::CodegenError;
pub use gpu_kernel::GpuKernelMode;
pub use llty::{result_struct_ty, LType, Value};

use ast::{Program, Stmt};
use freevars::{free, free_idents};
use names::NameSet;
use vstd::prelude::*;

verus! {

/// The identifiers a statement references: the free names of a `let`,
/// assignment or expression value and of a function body, and of every
/// declaration nested in a module or namespace.
pub open spec fn stmt_refs(s: Stmt) -> Set<Seq<char>>
    decreases s,
{
    match s {
        Stmt::Let { value, .. } => free(value, Seq::empty()),
        Stmt::Assignment { value, .. } => free(value, Seq::empty()),
        Stmt::Expr { value, .. } => free(value, Seq::empty()),
        Stmt::Function { body, .. } => free(body, Seq::empty()),
        Stmt::Module { body, .. } => stmts_refs(body@),
        Stmt::Namespace { body, .. } => stmts_refs(body@),
        Stmt::Other => Set::empty(),
    }
}

/// The identifiers a list of statements references.
pub open spec fn stmts_refs(ss: Seq<Stmt>) -> Set<Seq<char>>
    decreases ss,
{
    if ss.len() == 0 {
        Set::empty()
    } else {
        stmt_refs(ss[0]) + stmts_refs(ss.drop_first())
    }
}

/// Every identifier referenced anywhere in `program` — function bodies, lets,
/// nested modules. A capability sandbox uses this to detect gated builtins
/// (`httpGet`, `readFile`, …) without compiling.
pub fn referenced_idents(program: &Program) -> (r: NameSet)
    ensures
        r.wf(),
        r.set() == stmts_refs(program.statements@),
{
    let mut out = NameSet::new();
    stmts_idents(program.statements.as_slice(), &mut out);
    assert(out.set() =~= stmts_refs(program.statements@));
    out
}

/// Collect the identifiers `s` references.
fn stmt_idents(s: &Stmt, out: &mut NameSet)
    requires
        old(out).wf(),
    ensures
        final(out).wf(),
        final(out).set() == old(out).set() + stmt_refs(*s),
    decreases *s,
{
    match s {
        Stmt::Let { value, .. } | Stmt::Assignment { value, .. } => free_idents(value, out),
        Stmt::Expr { value, .. } => free_idents(value, out),
        Stmt::Function { body, .. } => free_idents(body, out),
        Stmt::Module { body, .. } | Stmt::Namespace { body, .. } => {
            stmts_idents(body.as_slice(), out)
        },
        Stmt::Other => {
            assert(final(out).set() =~= old(out).set() + stmt_refs(*s));
        },
    }
}

/// Collect the identifiers a list of statements references.
fn stmts_idents(ss: &[Stmt], out: &mut NameSet)
    requires
        old(out).wf(),
    ensures
        final(out).wf(),
        final(out).set() == old(out).set() + stmts_refs(ss@),
    decreases ss@,
{
    let ghost out0 = out.set();
    let mut i: usize = 0;
    assert(ss@.skip(0) =~= ss@);
    while i < ss.len()
        invariant
            i <= ss@.len(),
            out.wf(),
            out.set() + stmts_refs(ss@.skip(i as int)) == out0 + stmts_refs(ss@),
        decreases ss@.len() - i,
    {
        proof {
            assert(ss@.skip(i as int)[0] == ss@[i as int]);
            assert(ss@.skip(i as int).drop_first() =~= ss@.skip(i + 1));
        }
        stmt_idents(&ss[i], out);
        proof {
            assert(out.set() + stmts_refs(ss@.skip(i + 1)) =~= out0 + stmts_refs(ss@));
        }
        i = i + 1;
    }
    assert(stmts_refs(ss@.skip(i as int)) =~= Set::<Seq<char>>::empty());
    assert(out.set() =~= out0 + stmts_refs(ss@));
}

} // verus!
