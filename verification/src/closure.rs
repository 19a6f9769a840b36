//! The spellings of the one function-value representation: a closure cell
//! `{ i8* fnptr, capture0, capture1, … }` whose function takes a hidden
//! leading `i8* %__env` (the cell itself) and reloads its captures from it.

use crate::ast::{Expr, Parameter};
use crate::builder::Scopes;
use crate::freevars::{free, free_idents, names_of, param_names, walk};
use crate::llty::{join, joined, ret_of, ret_spelling, texts, LType, Value};
use crate::names::{lex_lt, sorted, NameSet};
use crate::text::{owned, str_eq};
use vstd::prelude::*;
use vstd::string::StringExecFns;

verus! {

/// A function value's signature: parameter types, return type, and the
/// success layout when it returns `Result<T, _>`.
pub type FnSig = (Vec<LType>, LType, Option<LType>);

/// One parameter slot: its travelling type, its Result layout when it takes a
/// `Result`, and its element type when it takes a Fiber.
#[derive(Debug, Clone, Copy, PartialEq, Eq, Structural)]
pub struct ParamSig {
    pub ty: LType,
    pub result_inner: Option<LType>,
    pub fiber: Option<LType>,
}

/// One captured binding: its source name and the parent-scope [`Value`] whose
/// metadata (Result shape, owner tag) the reload inside the closure keeps.
#[derive(Debug)]
pub struct Capture {
    pub name: String,
    pub val: Value,
}

/// The spellings of a list of types.
pub open spec fn spellings(tys: Seq<LType>) -> Seq<Seq<char>> {
    tys.map_values(|t: LType| t.spelling())
}

/// A comma-separated LLVM parameter list.
pub open spec fn param_list(tys: Seq<LType>) -> Seq<char> {
    joined(spellings(tys), ", "@)
}

/// The spelling of each type, in order.
pub fn type_spellings(tys: &[LType]) -> (r: Vec<String>)
    ensures
        texts(r@) == spellings(tys@),
{
    let mut r: Vec<String> = Vec::new();
    let mut i: usize = 0;
    while i < tys.len()
        invariant
            i <= tys@.len(),
            r@.len() == i,
            forall|k: int| 0 <= k < i ==> (#[trigger] r@[k])@ == tys@[k].spelling(),
        decreases tys@.len() - i,
    {
        r.push(owned(tys[i].as_str()));
        i = i + 1;
    }
    assert(texts(r@) =~= spellings(tys@));
    r
}

/// The LLVM return-type and parameter-list spellings of a function value's
/// signature (no env): the return is a Result block pointer when it returns
/// `Result<T, _>`, else the plain scalar.
pub fn spelling(sig: &FnSig) -> (r: (String, String))
    ensures
        r.0@ == ret_of(sig.1, sig.2),
        r.1@ == param_list(sig.0@),
{
    let ret = ret_spelling(sig.1, sig.2);
    let parts = type_spellings(sig.0.as_slice());
    (ret, join(parts.as_slice(), ", "))
}

/// The parameter list with the hidden leading `i8*` env parameter.
pub open spec fn env_params(tys: Seq<LType>) -> Seq<char> {
    if tys.len() == 0 {
        "i8*"@
    } else {
        "i8*, "@ + param_list(tys)
    }
}

/// [`spelling`] with the hidden leading `i8*` env parameter — the ABI every
/// closure function and every cell call share.
pub fn spelling_with_env(sig: &FnSig) -> (r: (String, String))
    ensures
        r.0@ == ret_of(sig.1, sig.2),
        r.1@ == env_params(sig.0@),
{
    let (ret, params) = spelling(sig);
    if sig.0.len() == 0 {
        (ret, owned("i8*"))
    } else {
        let mut p = owned("i8*, ");
        p.append(params.as_str());
        (ret, p)
    }
}

/// The emit-once key of `target` specialised at a signature.
pub open spec fn spec_key(target: Seq<char>, sig: FnSig) -> Seq<char> {
    target + "|"@ + ret_of(sig.1, sig.2) + "("@ + env_params(sig.0@) + ")"@
}

/// The emit-once key of `target` specialised at `sig`: two uses share a body
/// only when both the function AND the whole ABI spelling match. The `|`
/// separator cannot occur in a function name, so a key never collides with a
/// bare forwarder name.
pub fn specialisation_key(target: &str, sig: &FnSig) -> (r: String)
    ensures
        r@ == spec_key(target@, *sig),
{
    let (ret, plist) = spelling_with_env(sig);
    let mut r = owned(target);
    r.append("|");
    r.append(ret.as_str());
    r.append("(");
    r.append(plist.as_str());
    r.append(")");
    r
}

/// The slot spellings of a closure cell: the fnptr, then each capture in its
/// travelling type.
pub open spec fn cell_slots(caps: Seq<Capture>) -> Seq<Seq<char>> {
    seq!["i8*"@] + caps.map_values(|c: Capture| c.val.travels_as())
}

/// The LLVM struct spelling of a closure cell: the fnptr slot then one slot per
/// capture, each in the capture's own travelling type.
pub fn cell_struct_ty(caps: &[Capture]) -> (r: String)
    ensures
        r@ == "{ "@ + joined(cell_slots(caps@), ", "@) + " }"@,
{
    let mut parts: Vec<String> = Vec::new();
    parts.push(owned("i8*"));
    let mut i: usize = 0;
    while i < caps.len()
        invariant
            i <= caps@.len(),
            parts@.len() == i + 1,
            parts@[0]@ == "i8*"@,
            forall|k: int| 0 <= k < i ==> (#[trigger] parts@[k + 1])@ == caps@[k].val.travels_as(),
        decreases caps@.len() - i,
    {
        parts.push(caps[i].val.llvm_ty());
        i = i + 1;
    }
    assert forall|k: int| 0 <= k < parts@.len() implies texts(parts@)[k] == cell_slots(caps@)[k] by {
        if k > 0 {
            assert(parts@[(k - 1) + 1] == parts@[k]);
        }
    }
    assert(texts(parts@) =~= cell_slots(caps@));
    let mut r = owned("{ ");
    let j = join(parts.as_slice(), ", ");
    r.append(j.as_str());
    r.append(" }");
    r
}

/// The constant-expression spelling of a closure function's address as `i8*`.
pub fn fnptr_const(fn_name: &str, sig: &FnSig) -> (r: String)
    ensures
        r@ == "bitcast ("@ + ret_of(sig.1, sig.2) + " ("@ + env_params(sig.0@) + ")* @"@
            + fn_name@ + " to i8*)"@,
{
    let (ret, plist) = spelling_with_env(sig);
    let mut r = owned("bitcast (");
    r.append(ret.as_str());
    r.append(" (");
    r.append(plist.as_str());
    r.append(")* @");
    r.append(fn_name);
    r.append(" to i8*)");
    r
}

/// The free names of a function body with its parameters bound.
pub fn free_names(parameters: &Vec<Parameter>, body: &Expr) -> (r: NameSet)
    ensures
        r.wf(),
        r.set() == free(*body, param_names(parameters@)),
{
    let mut out = NameSet::new();
    let mut bound = names_of(parameters);
    walk(body, &mut bound, &mut out);
    assert(out.set() =~= free(*body, param_names(parameters@)));
    out
}

/// Whether `name` is one of the parameters.
fn is_param(parameters: &[Parameter], name: &str) -> (r: bool)
    ensures
        r == param_names(parameters@).contains(name@),
{
    let mut i: usize = 0;
    while i < parameters.len()
        invariant
            i <= parameters@.len(),
            forall|k: int| 0 <= k < i ==> parameters@[k].name@ != name@,
        decreases parameters@.len() - i,
    {
        if str_eq(parameters[i].name.as_str(), name) {
            assert(param_names(parameters@)[i as int] == name@);
            return true;
        }
        i = i + 1;
    }
    assert(!param_names(parameters@).contains(name@)) by {
        if param_names(parameters@).contains(name@) {
            let k = choose|k: int|
                0 <= k < param_names(parameters@).len() && param_names(parameters@)[k] == name@;
            assert(parameters@[k].name@ == name@);
        }
    }
    false
}

/// A name a closure over `body` with `parameters` captures from `scopes`: free
/// in the body, not a parameter, and bound to a value in an enclosing scope.
pub open spec fn captured(scopes: Scopes, parameters: Seq<Parameter>, body: Expr, name: Seq<
    char,
>) -> bool {
    &&& free(body, Seq::empty()).contains(name)
    &&& !param_names(parameters).contains(name)
    &&& scopes.get(name) is Some
}

/// The free identifiers of `body` (minus the lambda's own parameters) that are
/// bound to a value in the enclosing scope — the closure's captures, in stable
/// (sorted) order, each with the value its name resolves to.
pub fn capture_list(scopes: &Scopes, parameters: &[Parameter], body: &Expr) -> (r: Vec<Capture>)
    ensures
        forall|i: int, j: int| 0 <= i < j < r@.len() ==> lex_lt(r@[i].name@, r@[j].name@),
        forall|i: int|
            0 <= i < r@.len() ==> captured(*scopes, parameters@, *body, #[trigger] r@[i].name@)
                && scopes.get(r@[i].name@) == Some(r@[i].val),
        forall|x: Seq<char>|
            captured(*scopes, parameters@, *body, x) ==> exists|i: int|
                0 <= i < r@.len() && #[trigger] r@[i].name@ == x,
{
    let mut names = NameSet::new();
    free_idents(body, &mut names);
    let list = names.as_slice();
    let ghost l = names.list();
    proof {
        names.lemma_sorted();
        assert(free(*body, Seq::empty()) =~= l.to_set());
    }
    let mut r: Vec<Capture> = Vec::new();
    let ghost mut idx: Seq<int> = Seq::empty();
    let mut i: usize = 0;
    while i < list.len()
        invariant
            texts(list@) == l,
            sorted(l),
            l.to_set() == free(*body, Seq::empty()),
            i <= l.len(),
            idx.len() == r@.len(),
            forall|j: int| 0 <= j < idx.len() ==> 0 <= #[trigger] idx[j] < i,
            forall|j: int, k: int| 0 <= j < k < idx.len() ==> idx[j] < idx[k],
            forall|j: int| 0 <= j < r@.len() ==> (#[trigger] r@[j]).name@ == l[idx[j]],
            forall|j: int|
                0 <= j < r@.len() ==> captured(*scopes, parameters@, *body, #[trigger] r@[j].name@)
                    && scopes.get(r@[j].name@) == Some(r@[j].val),
            forall|k: int|
                0 <= k < i && captured(*scopes, parameters@, *body, #[trigger] l[k])
                    ==> exists|j: int| 0 <= j < r@.len() && #[trigger] r@[j].name@ == l[k],
        decreases l.len() - i,
    {
        let name = list[i].as_str();
        proof {
            assert(l[i as int] == name@);
            assert(l.to_set().contains(name@));
        }
        if !is_param(parameters, name) {
            match scopes.lookup(name) {
                Some(val) => {
                    let ghost r0 = r@;
                    r.push(Capture { name: owned(name), val });
                    proof {
                        idx = idx.push(i as int);
                        assert forall|k: int|
                            0 <= k < i + 1 && captured(
                                *scopes,
                                parameters@,
                                *body,
                                #[trigger] l[k],
                            ) implies exists|j: int|
                            0 <= j < r@.len() && #[trigger] r@[j].name@ == l[k] by {
                            if k < i {
                                let j = choose|j: int|
                                    0 <= j < r0.len() && #[trigger] r0[j].name@ == l[k];
                                assert(r@[j] == r0[j]);
                            } else {
                                assert(r@[r0.len() as int].name@ == l[k]);
                            }
                        }
                    }
                },
                None => {},
            }
        }
        i = i + 1;
    }
    proof {
        assert forall|a: int, b: int| 0 <= a < b < r@.len() implies lex_lt(
            r@[a].name@,
            r@[b].name@,
        ) by {
            assert(idx[a] < idx[b]);
        }
        assert forall|x: Seq<char>| captured(*scopes, parameters@, *body, x) implies exists|i: int|
            0 <= i < r@.len() && #[trigger] r@[i].name@ == x by {
            assert(l.to_set().contains(x));
            let k = choose|k: int| 0 <= k < l.len() && l[k] == x;
            assert(captured(*scopes, parameters@, *body, l[k]));
        }
    }
    r
}

} // verus!
