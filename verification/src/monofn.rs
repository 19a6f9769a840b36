//! Keys and diagnostics of monomorphised generic-function instantiations.

use crate::closure::ParamSig;
use crate::error::CodegenError;
use crate::llty::{join, joined, texts, Value};
use crate::text::owned;
use vstd::prelude::*;
use vstd::string::StringExecFns;

verus! {

/// One argument's contribution to an instantiation key.
pub open spec fn slot_text(v: Value) -> Seq<char> {
    v.ty.spelling() + ":"@ + match v.osp_ty {
        Some(o) => o@,
        None => Seq::empty(),
    } + ":"@ + match v.result_inner {
        Some(i) => i.spelling(),
        None => Seq::empty(),
    }
}

/// One argument's contribution to the key: its LLVM type, its owner tag (a
/// `Gpu#double` buffer and a bare handle are different instantiations) and its
/// Result layout.
pub fn slot_spelling(v: &Value) -> (r: String)
    ensures
        r@ == slot_text(*v),
{
    let mut r = owned(v.ty.as_str());
    r.append(":");
    match &v.osp_ty {
        Some(o) => r.append(o.as_str()),
        None => {},
    }
    r.append(":");
    match v.result_inner {
        Some(i) => r.append(i.as_str()),
        None => {},
    }
    proof {
        assert(r@ =~= slot_text(*v));
    }
    r
}

/// The instantiation key of a call.
pub open spec fn key_text(name: Seq<char>, values: Seq<Value>) -> Seq<char> {
    name + "("@ + joined(values.map_values(|v: Value| slot_text(v)), ","@) + ")"@
}

/// The instantiation this call selects: the function name plus each
/// argument's lowered representation. Two calls agree exactly when their
/// arguments travel identically.
pub fn instantiation_key(name: &str, values: &[Value]) -> (r: String)
    ensures
        r@ == key_text(name@, values@),
{
    let mut args: Vec<String> = Vec::new();
    let mut i: usize = 0;
    while i < values.len()
        invariant
            i <= values@.len(),
            args@.len() == i,
            forall|k: int| 0 <= k < i ==> (#[trigger] args@[k])@ == slot_text(values@[k]),
        decreases values@.len() - i,
    {
        args.push(slot_spelling(&values[i]));
        i = i + 1;
    }
    assert(texts(args@) =~= values@.map_values(|v: Value| slot_text(v)));
    let mut r = owned(name);
    r.append("(");
    let j = join(args.as_slice(), ",");
    r.append(j.as_str());
    r.append(")");
    r
}

/// The diagnostic of a recursive generic whose return type is not inferred.
pub open spec fn unresolved_text(name: Seq<char>) -> Seq<char> {
    "`"@ + name
        + "` is recursive and its return type is not inferred; annotate its return type so it is emitted as a real function"@
}

/// The diagnostic for a recursive generic whose return type inference could
/// not resolve: its instantiations have no signature to emit, so annotating
/// is still the answer.
pub fn unresolved(name: &str) -> (r: CodegenError)
    ensures
        r matches CodegenError::Unsupported(w) && w@ == unresolved_text(name@),
{
    let mut w = owned("`");
    w.append(name);
    w.append(
        "` is recursive and its return type is not inferred; annotate its return type so it is emitted as a real function",
    );
    CodegenError::Unsupported(w)
}

/// The parameter slot an argument travels in, keeping its Result layout so a
/// `Result` argument stays one block rather than an erased word.
pub fn param_of(v: &Value) -> (r: ParamSig)
    ensures
        r == (ParamSig { ty: v.ty, result_inner: v.result_inner, fiber: None }),
{
    ParamSig { ty: v.ty, result_inner: v.result_inner, fiber: None }
}

} // verus!
