//! Signatures of algebraic-effect operations and of the environment slots a
//! `handle` region captures. Each handler arm becomes a function taking a
//! hidden leading `i8* env`.

use crate::ast::{Expr, FieldAssignment, HandlerArm, InterpolatedPart, MapEntry, MatchArm, NamedArgument, Stmt};
use crate::closure::{spellings, ParamSig};
use crate::freevars::{copy_names, free, walk};
use crate::names::NameSet;
use crate::arc::{escape_retain, managed_in, ptr_regs, retain_bodies, RETAIN_DECL};
use crate::builder::{
    declares, define_text, emitted, label, lemma_emitted_none, lemma_emitted_trans, lemma_wf_debug,
    located_lines, location_of, param_texts, register, same_externs, Codegen, Emission,
};
use crate::call::{arg_texts, call_text, declaration};
use crate::conv::{box_to_i64, unbox_from_i64, unword_rhs, word_bodies, word_operand, word_regs};
use crate::debug_info::{lemma_retained_pending, DebugState};
use crate::llty::{join, joined, opt_text, result_block, ret_of, ret_spelling, texts, LType, Value};
use crate::text::{decimal, owned, push_decimal};
use vstd::prelude::*;
use vstd::string::StringExecFns;

verus! {

/// An effect-operation signature: parameter types, the result LLVM type, and
/// (when the result is `Result<T, _>`) the success inner type. A generic
/// effect's type-parameter slots are ERASED — they travel as boxed `i64`, and
/// the `*_erased` flags mark which slots must box/unbox at the boundaries.
#[derive(Debug, Clone)]
pub struct OpSig {
    pub params: Vec<LType>,
    pub ret: LType,
    pub ret_result_inner: Option<LType>,
    /// Per-parameter: whether the declared type is an effect type parameter.
    pub param_erased: Vec<bool>,
    /// Whether the declared result is an effect type parameter.
    pub ret_erased: bool,
}

impl OpSig {
    /// A default all-`i64` signature for `arity` parameters — the fallback when
    /// inference recorded no resolved signature for an effect operation.
    pub fn default_for_arity(arity: usize) -> (r: OpSig)
        ensures
            r.params@ == Seq::new(arity as nat, |i: int| LType::I64),
            r.ret == LType::I64,
            r.ret_result_inner is None,
            r.param_erased@ == Seq::new(arity as nat, |i: int| false),
            !r.ret_erased,
    {
        let mut params: Vec<LType> = Vec::new();
        let mut erased: Vec<bool> = Vec::new();
        let mut i: usize = 0;
        while i < arity
            invariant
                i <= arity,
                params@ =~= Seq::new(i as nat, |k: int| LType::I64),
                erased@ =~= Seq::new(i as nat, |k: int| false),
            decreases arity - i,
        {
            params.push(LType::I64);
            erased.push(false);
            i = i + 1;
            assert(params@ =~= Seq::new(i as nat, |k: int| LType::I64));
            assert(erased@ =~= Seq::new(i as nat, |k: int| false));
        }
        OpSig {
            params,
            ret: LType::I64,
            ret_result_inner: None,
            param_erased: erased,
            ret_erased: false,
        }
    }

    /// The handler function's return-type spelling.
    pub open spec fn ret_text(self) -> Seq<char> {
        ret_of(self.ret, self.ret_result_inner)
    }

    /// The handler function-pointer type spelling.
    pub open spec fn fn_ptr_text(self) -> Seq<char> {
        self.ret_text() + " ("@ + joined(seq!["i8*"@] + spellings(self.params@), ", "@) + ")*"@
    }

    /// The handler function's LLVM return-type spelling (the Result block
    /// pointer for a Result result, else the plain type).
    pub fn ret_ty(&self) -> (r: String)
        ensures
            r@ == self.ret_text(),
    {
        ret_spelling(self.ret, self.ret_result_inner)
    }

    /// The handler function-pointer type. Every arm takes a hidden leading
    /// `i8* env`, e.g. `i64 (i8*, i64)*`.
    pub fn fn_ptr_ty(&self) -> (r: String)
        ensures
            r@ == self.fn_ptr_text(),
    {
        let mut parts: Vec<String> = Vec::new();
        parts.push(owned("i8*"));
        let mut i: usize = 0;
        while i < self.params.len()
            invariant
                i <= self.params@.len(),
                parts@.len() == i + 1,
                parts@[0]@ == "i8*"@,
                forall|k: int|
                    0 <= k < i ==> (#[trigger] parts@[k + 1])@ == self.params@[k].spelling(),
            decreases self.params@.len() - i,
        {
            parts.push(owned(self.params[i].as_str()));
            i = i + 1;
        }
        assert forall|k: int| 0 <= k < parts@.len() implies texts(parts@)[k] == (seq!["i8*"@]
            + spellings(self.params@))[k] by {
            if k > 0 {
                assert(parts@[(k - 1) + 1] == parts@[k]);
            }
        }
        assert(texts(parts@) =~= seq!["i8*"@] + spellings(self.params@));
        let mut r = self.ret_ty();
        r.append(" (");
        let j = join(parts.as_slice(), ", ");
        r.append(j.as_str());
        r.append(")*");
        r
    }
}

/// What the handler-state scan finds: the mutable bindings, and the names
/// handler arms reference freely.
pub type Found = (Set<Seq<char>>, Set<Seq<char>>);

/// Nothing found.
pub open spec fn nothing() -> Found {
    (Set::empty(), Set::empty())
}

/// Both findings.
pub open spec fn both(a: Found, b: Found) -> Found {
    (a.0 + b.0, a.1 + b.1)
}

/// The mutable bindings and handler-captured names of `e`, found anywhere in
/// it.
pub open spec fn scan_of(e: Expr) -> Found
    decreases e,
{
    match e {
        Expr::Handler { arms, body, .. } => both(scan_handlers_of(arms@), scan_of(*body)),
        Expr::Block { statements, value } => both(
            scan_stmts_of(statements@),
            match value {
                Some(v) => scan_of(*v),
                None => nothing(),
            },
        ),
        Expr::Match { value, arms } => both(scan_of(*value), scan_arms_of(arms@)),
        Expr::Select { arms } => scan_arms_of(arms@),
        Expr::InterpolatedStr(parts) => scan_parts_of(parts@),
        Expr::List(xs) => scan_exprs_of(xs@),
        Expr::MapLit(entries) => scan_entries_of(entries@),
        Expr::Object(fields) => scan_fields_of(fields@),
        Expr::TypeConstructor { fields, .. } => scan_fields_of(fields@),
        Expr::Update { fields, .. } => scan_fields_of(fields@),
        Expr::Binary { left, right, .. } => both(scan_of(*left), scan_of(*right)),
        Expr::Pipe { left, right } => both(scan_of(*left), scan_of(*right)),
        Expr::Unary { operand, .. } => scan_of(*operand),
        Expr::Call { function, arguments, named_arguments } => both(
            both(scan_of(*function), scan_exprs_of(arguments@)),
            scan_named_of(named_arguments@),
        ),
        Expr::MethodCall { target, arguments, named_arguments, .. } => both(
            both(scan_of(*target), scan_exprs_of(arguments@)),
            scan_named_of(named_arguments@),
        ),
        Expr::FieldAccess { target, .. } => scan_of(*target),
        Expr::Index { target, index } => both(scan_of(*target), scan_of(*index)),
        Expr::Lambda { body, .. } => scan_of(*body),
        Expr::Spawn(inner) => scan_of(*inner),
        Expr::Await(inner) => scan_of(*inner),
        Expr::Recv(inner) => scan_of(*inner),
        Expr::Yield(v) => match v {
            Some(inner) => scan_of(*inner),
            None => nothing(),
        },
        Expr::Send { channel, value } => both(scan_of(*channel), scan_of(*value)),
        Expr::Perform { arguments, named_arguments, .. } => both(
            scan_exprs_of(arguments@),
            scan_named_of(named_arguments@),
        ),
        Expr::Resume(v) => match v {
            Some(inner) => scan_of(*inner),
            None => nothing(),
        },
        _ => nothing(),
    }
}

/// The same over a list of expressions.
pub open spec fn scan_exprs_of(xs: Seq<Expr>) -> Found
    decreases xs,
{
    if xs.len() == 0 {
        nothing()
    } else {
        both(scan_of(xs[0]), scan_exprs_of(xs.drop_first()))
    }
}

/// The same over the values of named arguments.
pub open spec fn scan_named_of(ns: Seq<NamedArgument>) -> Found
    decreases ns,
{
    if ns.len() == 0 {
        nothing()
    } else {
        both(scan_of(ns[0].value), scan_named_of(ns.drop_first()))
    }
}

/// The same over the values of field assignments.
pub open spec fn scan_fields_of(fs: Seq<FieldAssignment>) -> Found
    decreases fs,
{
    if fs.len() == 0 {
        nothing()
    } else {
        both(scan_of(fs[0].value), scan_fields_of(fs.drop_first()))
    }
}

/// The same over the keys and values of map entries.
pub open spec fn scan_entries_of(ms: Seq<MapEntry>) -> Found
    decreases ms,
{
    if ms.len() == 0 {
        nothing()
    } else {
        both(both(scan_of(ms[0].key), scan_of(ms[0].value)), scan_entries_of(ms.drop_first()))
    }
}

/// The same over the `${…}` pieces of an interpolated string.
pub open spec fn scan_parts_of(ps: Seq<InterpolatedPart>) -> Found
    decreases ps,
{
    if ps.len() == 0 {
        nothing()
    } else {
        let head = match ps[0] {
            InterpolatedPart::Expr(inner) => scan_of(inner),
            InterpolatedPart::Text(_) => nothing(),
        };
        both(head, scan_parts_of(ps.drop_first()))
    }
}

/// The same over the bodies of match arms.
pub open spec fn scan_arms_of(arms: Seq<MatchArm>) -> Found
    decreases arms,
{
    if arms.len() == 0 {
        nothing()
    } else {
        both(scan_of(arms[0].body), scan_arms_of(arms.drop_first()))
    }
}

/// Handler arms: each captures the names its body references freely, less
/// its own parameters, and is scanned in turn.
pub open spec fn scan_handlers_of(hs: Seq<HandlerArm>) -> Found
    decreases hs,
{
    if hs.len() == 0 {
        nothing()
    } else {
        both(
            both(
                (Set::empty(), free(hs[0].body, texts(hs[0].params@))),
                scan_of(hs[0].body),
            ),
            scan_handlers_of(hs.drop_first()),
        )
    }
}

/// A statement: a `mut` binding or an assignment names a mutable; its value
/// is scanned.
pub open spec fn scan_stmt_of(s: Stmt) -> Found
    decreases s,
{
    match s {
        Stmt::Let { name, mutable, value, .. } => both(
            (
                if mutable {
                    set![name@]
                } else {
                    Set::empty()
                },
                Set::empty(),
            ),
            scan_of(value),
        ),
        Stmt::Assignment { name, value, .. } => both((set![name@], Set::empty()), scan_of(value)),
        Stmt::Expr { value, .. } => scan_of(value),
        _ => nothing(),
    }
}

/// The same over a list of statements.
pub open spec fn scan_stmts_of(ss: Seq<Stmt>) -> Found
    decreases ss,
{
    if ss.len() == 0 {
        nothing()
    } else {
        both(scan_stmt_of(ss[0]), scan_stmts_of(ss.drop_first()))
    }
}

/// Add `found` to the two collected sets.
pub open spec fn collected(muts: NameSet, captured: NameSet, found: Found) -> Found {
    (muts.set() + found.0, captured.set() + found.1)
}

/// Collect the mutable bindings and handler-captured names of `e`.
fn scan_expr(e: &Expr, muts: &mut NameSet, captured: &mut NameSet)
    requires
        old(muts).wf(),
        old(captured).wf(),
    ensures
        final(muts).wf(),
        final(captured).wf(),
        (final(muts).set(), final(captured).set()) == collected(*old(muts), *old(captured), scan_of(*e)),
    decreases *e, 1nat,
{
    let ghost m0 = muts.set();
    let ghost c0 = captured.set();
    match e {
        Expr::Handler { arms, body, .. } => {
            scan_handlers(arms.as_slice(), muts, captured);
            scan_expr(body, muts, captured);
        },
        Expr::Block { statements, value } => {
            scan_stmts(statements.as_slice(), muts, captured);
            match value {
                Some(v) => scan_expr(v, muts, captured),
                None => {},
            }
        },
        Expr::Match { value, arms } => {
            scan_expr(value, muts, captured);
            scan_arms(arms.as_slice(), muts, captured);
        },
        Expr::Select { arms } => scan_arms(arms.as_slice(), muts, captured),
        _ => scan_children(e, muts, captured),
    }
    assert(muts.set() =~= m0 + scan_of(*e).0);
    assert(captured.set() =~= c0 + scan_of(*e).1);
}

/// Recurse into every child expression of `e` not special-cased in
/// [`scan_expr`], so a handler or mutable nested anywhere is found.
fn scan_children(e: &Expr, muts: &mut NameSet, captured: &mut NameSet)
    requires
        old(muts).wf(),
        old(captured).wf(),
        !(e is Handler || e is Block || e is Match || e is Select),
    ensures
        final(muts).wf(),
        final(captured).wf(),
        (final(muts).set(), final(captured).set()) == collected(*old(muts), *old(captured), scan_of(*e)),
    decreases *e, 0nat,
{
    let ghost m0 = muts.set();
    let ghost c0 = captured.set();
    match e {
        Expr::InterpolatedStr(parts) => scan_parts(parts.as_slice(), muts, captured),
        Expr::List(xs) => scan_exprs(xs.as_slice(), muts, captured),
        Expr::MapLit(entries) => scan_entries(entries.as_slice(), muts, captured),
        Expr::Object(fields) => scan_fields(fields.as_slice(), muts, captured),
        Expr::TypeConstructor { fields, .. } => scan_fields(fields.as_slice(), muts, captured),
        Expr::Update { fields, .. } => scan_fields(fields.as_slice(), muts, captured),
        Expr::Binary { left, right, .. } => {
            scan_expr(left, muts, captured);
            scan_expr(right, muts, captured);
        },
        Expr::Pipe { left, right } => {
            scan_expr(left, muts, captured);
            scan_expr(right, muts, captured);
        },
        Expr::Unary { operand, .. } => scan_expr(operand, muts, captured),
        Expr::Call { function, arguments, named_arguments } => {
            scan_expr(function, muts, captured);
            scan_exprs(arguments.as_slice(), muts, captured);
            scan_named(named_arguments.as_slice(), muts, captured);
        },
        Expr::MethodCall { target, arguments, named_arguments, .. } => {
            scan_expr(target, muts, captured);
            scan_exprs(arguments.as_slice(), muts, captured);
            scan_named(named_arguments.as_slice(), muts, captured);
        },
        Expr::FieldAccess { target, .. } => scan_expr(target, muts, captured),
        Expr::Index { target, index } => {
            scan_expr(target, muts, captured);
            scan_expr(index, muts, captured);
        },
        Expr::Lambda { body, .. } => scan_expr(body, muts, captured),
        Expr::Spawn(inner) => scan_expr(inner, muts, captured),
        Expr::Await(inner) => scan_expr(inner, muts, captured),
        Expr::Recv(inner) => scan_expr(inner, muts, captured),
        Expr::Yield(v) => match v {
            Some(inner) => scan_expr(inner, muts, captured),
            None => {},
        },
        Expr::Send { channel, value } => {
            scan_expr(channel, muts, captured);
            scan_expr(value, muts, captured);
        },
        Expr::Perform { arguments, named_arguments, .. } => {
            scan_exprs(arguments.as_slice(), muts, captured);
            scan_named(named_arguments.as_slice(), muts, captured);
        },
        Expr::Resume(v) => match v {
            Some(inner) => scan_expr(inner, muts, captured),
            None => {},
        },
        _ => {},
    }
    assert(muts.set() =~= m0 + scan_of(*e).0);
    assert(captured.set() =~= c0 + scan_of(*e).1);
}

/// Scan each expression of a list.
fn scan_exprs(xs: &[Expr], muts: &mut NameSet, captured: &mut NameSet)
    requires
        old(muts).wf(),
        old(captured).wf(),
    ensures
        final(muts).wf(),
        final(captured).wf(),
        (final(muts).set(), final(captured).set()) == collected(*old(muts), *old(captured), scan_exprs_of(xs@)),
    decreases xs@, 0nat,
{
    let ghost m0 = muts.set();
    let ghost c0 = captured.set();
    let mut i: usize = 0;
    assert(xs@.skip(0) =~= xs@);
    while i < xs.len()
        invariant
            i <= xs@.len(),
            muts.wf(),
            captured.wf(),
            both((muts.set(), captured.set()), scan_exprs_of(xs@.skip(i as int))) == both(
                (m0, c0),
                scan_exprs_of(xs@),
            ),
        decreases xs@.len() - i,
    {
        proof {
            assert(xs@.skip(i as int)[0] == xs@[i as int]);
            assert(xs@.skip(i as int).drop_first() =~= xs@.skip(i + 1));
        }
        let x = &xs[i];
        scan_expr(x, muts, captured);
        proof {
            assert(both((muts.set(), captured.set()), scan_exprs_of(xs@.skip(i + 1))).0 =~= both(
                (m0, c0),
                scan_exprs_of(xs@),
            ).0);
            assert(both((muts.set(), captured.set()), scan_exprs_of(xs@.skip(i + 1))).1 =~= both(
                (m0, c0),
                scan_exprs_of(xs@),
            ).1);
        }
        i = i + 1;
    }
    assert(scan_exprs_of(xs@.skip(i as int)).0 =~= Set::<Seq<char>>::empty());
    assert(scan_exprs_of(xs@.skip(i as int)).1 =~= Set::<Seq<char>>::empty());
    assert(muts.set() =~= m0 + scan_exprs_of(xs@).0);
    assert(captured.set() =~= c0 + scan_exprs_of(xs@).1);
}

/// Scan the value of each named argument.
fn scan_named(xs: &[NamedArgument], muts: &mut NameSet, captured: &mut NameSet)
    requires
        old(muts).wf(),
        old(captured).wf(),
    ensures
        final(muts).wf(),
        final(captured).wf(),
        (final(muts).set(), final(captured).set()) == collected(*old(muts), *old(captured), scan_named_of(xs@)),
    decreases xs@, 0nat,
{
    let ghost m0 = muts.set();
    let ghost c0 = captured.set();
    let mut i: usize = 0;
    assert(xs@.skip(0) =~= xs@);
    while i < xs.len()
        invariant
            i <= xs@.len(),
            muts.wf(),
            captured.wf(),
            both((muts.set(), captured.set()), scan_named_of(xs@.skip(i as int))) == both(
                (m0, c0),
                scan_named_of(xs@),
            ),
        decreases xs@.len() - i,
    {
        proof {
            assert(xs@.skip(i as int)[0] == xs@[i as int]);
            assert(xs@.skip(i as int).drop_first() =~= xs@.skip(i + 1));
        }
        let x = &xs[i];
        scan_expr(&x.value, muts, captured);
        proof {
            assert(both((muts.set(), captured.set()), scan_named_of(xs@.skip(i + 1))).0 =~= both(
                (m0, c0),
                scan_named_of(xs@),
            ).0);
            assert(both((muts.set(), captured.set()), scan_named_of(xs@.skip(i + 1))).1 =~= both(
                (m0, c0),
                scan_named_of(xs@),
            ).1);
        }
        i = i + 1;
    }
    assert(scan_named_of(xs@.skip(i as int)).0 =~= Set::<Seq<char>>::empty());
    assert(scan_named_of(xs@.skip(i as int)).1 =~= Set::<Seq<char>>::empty());
    assert(muts.set() =~= m0 + scan_named_of(xs@).0);
    assert(captured.set() =~= c0 + scan_named_of(xs@).1);
}

/// Scan the value of each field assignment.
fn scan_fields(xs: &[FieldAssignment], muts: &mut NameSet, captured: &mut NameSet)
    requires
        old(muts).wf(),
        old(captured).wf(),
    ensures
        final(muts).wf(),
        final(captured).wf(),
        (final(muts).set(), final(captured).set()) == collected(*old(muts), *old(captured), scan_fields_of(xs@)),
    decreases xs@, 0nat,
{
    let ghost m0 = muts.set();
    let ghost c0 = captured.set();
    let mut i: usize = 0;
    assert(xs@.skip(0) =~= xs@);
    while i < xs.len()
        invariant
            i <= xs@.len(),
            muts.wf(),
            captured.wf(),
            both((muts.set(), captured.set()), scan_fields_of(xs@.skip(i as int))) == both(
                (m0, c0),
                scan_fields_of(xs@),
            ),
        decreases xs@.len() - i,
    {
        proof {
            assert(xs@.skip(i as int)[0] == xs@[i as int]);
            assert(xs@.skip(i as int).drop_first() =~= xs@.skip(i + 1));
        }
        let x = &xs[i];
        scan_expr(&x.value, muts, captured);
        proof {
            assert(both((muts.set(), captured.set()), scan_fields_of(xs@.skip(i + 1))).0 =~= both(
                (m0, c0),
                scan_fields_of(xs@),
            ).0);
            assert(both((muts.set(), captured.set()), scan_fields_of(xs@.skip(i + 1))).1 =~= both(
                (m0, c0),
                scan_fields_of(xs@),
            ).1);
        }
        i = i + 1;
    }
    assert(scan_fields_of(xs@.skip(i as int)).0 =~= Set::<Seq<char>>::empty());
    assert(scan_fields_of(xs@.skip(i as int)).1 =~= Set::<Seq<char>>::empty());
    assert(muts.set() =~= m0 + scan_fields_of(xs@).0);
    assert(captured.set() =~= c0 + scan_fields_of(xs@).1);
}

/// Scan the key and value of each map entry.
fn scan_entries(xs: &[MapEntry], muts: &mut NameSet, captured: &mut NameSet)
    requires
        old(muts).wf(),
        old(captured).wf(),
    ensures
        final(muts).wf(),
        final(captured).wf(),
        (final(muts).set(), final(captured).set()) == collected(*old(muts), *old(captured), scan_entries_of(xs@)),
    decreases xs@, 0nat,
{
    let ghost m0 = muts.set();
    let ghost c0 = captured.set();
    let mut i: usize = 0;
    assert(xs@.skip(0) =~= xs@);
    while i < xs.len()
        invariant
            i <= xs@.len(),
            muts.wf(),
            captured.wf(),
            both((muts.set(), captured.set()), scan_entries_of(xs@.skip(i as int))) == both(
                (m0, c0),
                scan_entries_of(xs@),
            ),
        decreases xs@.len() - i,
    {
        proof {
            assert(xs@.skip(i as int)[0] == xs@[i as int]);
            assert(xs@.skip(i as int).drop_first() =~= xs@.skip(i + 1));
        }
        let x = &xs[i];
        scan_expr(&x.key, muts, captured);
        scan_expr(&x.value, muts, captured);
        proof {
            assert(both((muts.set(), captured.set()), scan_entries_of(xs@.skip(i + 1))).0 =~= both(
                (m0, c0),
                scan_entries_of(xs@),
            ).0);
            assert(both((muts.set(), captured.set()), scan_entries_of(xs@.skip(i + 1))).1 =~= both(
                (m0, c0),
                scan_entries_of(xs@),
            ).1);
        }
        i = i + 1;
    }
    assert(scan_entries_of(xs@.skip(i as int)).0 =~= Set::<Seq<char>>::empty());
    assert(scan_entries_of(xs@.skip(i as int)).1 =~= Set::<Seq<char>>::empty());
    assert(muts.set() =~= m0 + scan_entries_of(xs@).0);
    assert(captured.set() =~= c0 + scan_entries_of(xs@).1);
}

/// Scan each `${…}` piece of an interpolated string.
fn scan_parts(xs: &[InterpolatedPart], muts: &mut NameSet, captured: &mut NameSet)
    requires
        old(muts).wf(),
        old(captured).wf(),
    ensures
        final(muts).wf(),
        final(captured).wf(),
        (final(muts).set(), final(captured).set()) == collected(*old(muts), *old(captured), scan_parts_of(xs@)),
    decreases xs@, 0nat,
{
    let ghost m0 = muts.set();
    let ghost c0 = captured.set();
    let mut i: usize = 0;
    assert(xs@.skip(0) =~= xs@);
    while i < xs.len()
        invariant
            i <= xs@.len(),
            muts.wf(),
            captured.wf(),
            both((muts.set(), captured.set()), scan_parts_of(xs@.skip(i as int))) == both(
                (m0, c0),
                scan_parts_of(xs@),
            ),
        decreases xs@.len() - i,
    {
        proof {
            assert(xs@.skip(i as int)[0] == xs@[i as int]);
            assert(xs@.skip(i as int).drop_first() =~= xs@.skip(i + 1));
        }
        let x = &xs[i];
        match x {
            InterpolatedPart::Expr(inner) => scan_expr(inner, muts, captured),
            InterpolatedPart::Text(_) => {},
        }
        proof {
            assert(both((muts.set(), captured.set()), scan_parts_of(xs@.skip(i + 1))).0 =~= both(
                (m0, c0),
                scan_parts_of(xs@),
            ).0);
            assert(both((muts.set(), captured.set()), scan_parts_of(xs@.skip(i + 1))).1 =~= both(
                (m0, c0),
                scan_parts_of(xs@),
            ).1);
        }
        i = i + 1;
    }
    assert(scan_parts_of(xs@.skip(i as int)).0 =~= Set::<Seq<char>>::empty());
    assert(scan_parts_of(xs@.skip(i as int)).1 =~= Set::<Seq<char>>::empty());
    assert(muts.set() =~= m0 + scan_parts_of(xs@).0);
    assert(captured.set() =~= c0 + scan_parts_of(xs@).1);
}

/// Scan the body of each match arm.
fn scan_arms(xs: &[MatchArm], muts: &mut NameSet, captured: &mut NameSet)
    requires
        old(muts).wf(),
        old(captured).wf(),
    ensures
        final(muts).wf(),
        final(captured).wf(),
        (final(muts).set(), final(captured).set()) == collected(*old(muts), *old(captured), scan_arms_of(xs@)),
    decreases xs@, 0nat,
{
    let ghost m0 = muts.set();
    let ghost c0 = captured.set();
    let mut i: usize = 0;
    assert(xs@.skip(0) =~= xs@);
    while i < xs.len()
        invariant
            i <= xs@.len(),
            muts.wf(),
            captured.wf(),
            both((muts.set(), captured.set()), scan_arms_of(xs@.skip(i as int))) == both(
                (m0, c0),
                scan_arms_of(xs@),
            ),
        decreases xs@.len() - i,
    {
        proof {
            assert(xs@.skip(i as int)[0] == xs@[i as int]);
            assert(xs@.skip(i as int).drop_first() =~= xs@.skip(i + 1));
        }
        let x = &xs[i];
        scan_expr(&x.body, muts, captured);
        proof {
            assert(both((muts.set(), captured.set()), scan_arms_of(xs@.skip(i + 1))).0 =~= both(
                (m0, c0),
                scan_arms_of(xs@),
            ).0);
            assert(both((muts.set(), captured.set()), scan_arms_of(xs@.skip(i + 1))).1 =~= both(
                (m0, c0),
                scan_arms_of(xs@),
            ).1);
        }
        i = i + 1;
    }
    assert(scan_arms_of(xs@.skip(i as int)).0 =~= Set::<Seq<char>>::empty());
    assert(scan_arms_of(xs@.skip(i as int)).1 =~= Set::<Seq<char>>::empty());
    assert(muts.set() =~= m0 + scan_arms_of(xs@).0);
    assert(captured.set() =~= c0 + scan_arms_of(xs@).1);
}

/// Each handler arm captures the names its body references freely, less its
/// own parameters; its body is then scanned.
fn scan_handlers(xs: &[HandlerArm], muts: &mut NameSet, captured: &mut NameSet)
    requires
        old(muts).wf(),
        old(captured).wf(),
    ensures
        final(muts).wf(),
        final(captured).wf(),
        (final(muts).set(), final(captured).set()) == collected(*old(muts), *old(captured), scan_handlers_of(xs@)),
    decreases xs@, 0nat,
{
    let ghost m0 = muts.set();
    let ghost c0 = captured.set();
    let mut i: usize = 0;
    assert(xs@.skip(0) =~= xs@);
    while i < xs.len()
        invariant
            i <= xs@.len(),
            muts.wf(),
            captured.wf(),
            both((muts.set(), captured.set()), scan_handlers_of(xs@.skip(i as int))) == both(
                (m0, c0),
                scan_handlers_of(xs@),
            ),
        decreases xs@.len() - i,
    {
        proof {
            assert(xs@.skip(i as int)[0] == xs@[i as int]);
            assert(xs@.skip(i as int).drop_first() =~= xs@.skip(i + 1));
        }
        let x = &xs[i];
        let mut params = copy_names(&x.params);
        walk(&x.body, &mut params, captured);
        scan_expr(&x.body, muts, captured);
        proof {
            assert(both((muts.set(), captured.set()), scan_handlers_of(xs@.skip(i + 1))).0 =~= both(
                (m0, c0),
                scan_handlers_of(xs@),
            ).0);
            assert(both((muts.set(), captured.set()), scan_handlers_of(xs@.skip(i + 1))).1 =~= both(
                (m0, c0),
                scan_handlers_of(xs@),
            ).1);
        }
        i = i + 1;
    }
    assert(scan_handlers_of(xs@.skip(i as int)).0 =~= Set::<Seq<char>>::empty());
    assert(scan_handlers_of(xs@.skip(i as int)).1 =~= Set::<Seq<char>>::empty());
    assert(muts.set() =~= m0 + scan_handlers_of(xs@).0);
    assert(captured.set() =~= c0 + scan_handlers_of(xs@).1);
}

/// Scan each statement of a list.
fn scan_stmts(xs: &[Stmt], muts: &mut NameSet, captured: &mut NameSet)
    requires
        old(muts).wf(),
        old(captured).wf(),
    ensures
        final(muts).wf(),
        final(captured).wf(),
        (final(muts).set(), final(captured).set()) == collected(*old(muts), *old(captured), scan_stmts_of(xs@)),
    decreases xs@, 0nat,
{
    let ghost m0 = muts.set();
    let ghost c0 = captured.set();
    let mut i: usize = 0;
    assert(xs@.skip(0) =~= xs@);
    while i < xs.len()
        invariant
            i <= xs@.len(),
            muts.wf(),
            captured.wf(),
            both((muts.set(), captured.set()), scan_stmts_of(xs@.skip(i as int))) == both(
                (m0, c0),
                scan_stmts_of(xs@),
            ),
        decreases xs@.len() - i,
    {
        proof {
            assert(xs@.skip(i as int)[0] == xs@[i as int]);
            assert(xs@.skip(i as int).drop_first() =~= xs@.skip(i + 1));
        }
        let x = &xs[i];
        scan_stmt(x, muts, captured);
        proof {
            assert(both((muts.set(), captured.set()), scan_stmts_of(xs@.skip(i + 1))).0 =~= both(
                (m0, c0),
                scan_stmts_of(xs@),
            ).0);
            assert(both((muts.set(), captured.set()), scan_stmts_of(xs@.skip(i + 1))).1 =~= both(
                (m0, c0),
                scan_stmts_of(xs@),
            ).1);
        }
        i = i + 1;
    }
    assert(scan_stmts_of(xs@.skip(i as int)).0 =~= Set::<Seq<char>>::empty());
    assert(scan_stmts_of(xs@.skip(i as int)).1 =~= Set::<Seq<char>>::empty());
    assert(muts.set() =~= m0 + scan_stmts_of(xs@).0);
    assert(captured.set() =~= c0 + scan_stmts_of(xs@).1);
}

/// Scan a statement: a `mut` binding or an assignment names a mutable.
fn scan_stmt(s: &Stmt, muts: &mut NameSet, captured: &mut NameSet)
    requires
        old(muts).wf(),
        old(captured).wf(),
    ensures
        final(muts).wf(),
        final(captured).wf(),
        (final(muts).set(), final(captured).set()) == collected(*old(muts), *old(captured), scan_stmt_of(*s)),
    decreases *s, 0nat,
{
    let ghost m0 = muts.set();
    let ghost c0 = captured.set();
    match s {
        Stmt::Let { name, mutable, value, .. } => {
            if *mutable {
                muts.insert(name.as_str());
            }
            scan_expr(value, muts, captured);
        },
        Stmt::Assignment { name, value, .. } => {
            muts.insert(name.as_str());
            scan_expr(value, muts, captured);
        },
        Stmt::Expr { value, .. } => scan_expr(value, muts, captured),
        _ => {},
    }
    assert(muts.set() =~= m0 + scan_stmt_of(*s).0);
    assert(captured.set() =~= c0 + scan_stmt_of(*s).1);
}

/// The mutable locals an effect handler arm in `body` captures from an
/// enclosing scope: the mutable bindings of `body` that some handler arm in it
/// references freely. These are promoted to shared heap cells, so the arms and
/// the outer scope share one slot.
pub fn captured_mut_vars(body: &Expr) -> (r: NameSet)
    ensures
        r.wf(),
        r.set() == scan_of(*body).0.intersect(scan_of(*body).1),
{
    let mut muts = NameSet::new();
    let mut captured = NameSet::new();
    scan_expr(body, &mut muts, &mut captured);
    assert(muts.set() =~= scan_of(*body).0);
    assert(captured.set() =~= scan_of(*body).1);
    muts.intersection(&captured)
}

/// As [`captured_mut_vars`], over the top-level statements that make up
/// `main` when the program declares none.
pub fn captured_mut_vars_in_stmts(stmts: &[Stmt]) -> (r: NameSet)
    ensures
        r.wf(),
        r.set() == scan_stmts_of(stmts@).0.intersect(scan_stmts_of(stmts@).1),
{
    let mut muts = NameSet::new();
    let mut captured = NameSet::new();
    scan_stmts(stmts, &mut muts, &mut captured);
    assert(muts.set() =~= scan_stmts_of(stmts@).0);
    assert(captured.set() =~= scan_stmts_of(stmts@).1);
    muts.intersection(&captured)
}

/// Each statement of a list is scanned: what it finds, the list finds.
proof fn lemma_stmt_in_stmts(ss: Seq<Stmt>, i: int)
    requires
        0 <= i < ss.len(),
    ensures
        scan_stmt_of(ss[i]).0.subset_of(scan_stmts_of(ss).0),
        scan_stmt_of(ss[i]).1.subset_of(scan_stmts_of(ss).1),
    decreases ss.len(),
{
    if i > 0 {
        lemma_stmt_in_stmts(ss.drop_first(), i - 1);
        assert(ss.drop_first()[i - 1] == ss[i]);
    }
}

/// Each handler arm captures what its body references freely, less its own
/// parameters.
proof fn lemma_arm_in_handlers(hs: Seq<HandlerArm>, k: int)
    requires
        0 <= k < hs.len(),
    ensures
        free(hs[k].body, texts(hs[k].params@)).subset_of(scan_handlers_of(hs).1),
        scan_of(hs[k].body).0.subset_of(scan_handlers_of(hs).0),
        scan_of(hs[k].body).1.subset_of(scan_handlers_of(hs).1),
    decreases hs.len(),
{
    if k > 0 {
        lemma_arm_in_handlers(hs.drop_first(), k - 1);
        assert(hs.drop_first()[k - 1] == hs[k]);
    }
}

/// The value a statement binds, assigns or evaluates is scanned with it: a
/// handler behind `let r = ...`, `x = ...` or an expression statement is seen
/// just as it would be on its own.
pub proof fn law_statement_value_scanned(s: Stmt)
    ensures
        s is Let ==> scan_of(s->Let_value).0.subset_of(scan_stmt_of(s).0)
            && scan_of(s->Let_value).1.subset_of(scan_stmt_of(s).1),
        s is Assignment ==> scan_of(s->Assignment_value).0.subset_of(scan_stmt_of(s).0)
            && scan_of(s->Assignment_value).1.subset_of(scan_stmt_of(s).1),
        s is Expr ==> scan_stmt_of(s) == scan_of(s->Expr_value),
{
}

/// An immutable `let` finds exactly what its value finds: naming a handler
/// never changes what is captured.
pub proof fn law_immutable_let_scans_as_its_value(s: Stmt)
    requires
        s is Let,
        !s->Let_mutable,
    ensures
        scan_stmt_of(s) == scan_of(s->Let_value),
{
    assert(scan_stmt_of(s).0 =~= scan_of(s->Let_value).0);
    assert(scan_stmt_of(s).1 =~= scan_of(s->Let_value).1);
}

/// A `mut` binding, and an assignment, name a mutable local.
pub proof fn law_mutable_bindings_found(s: Stmt)
    ensures
        s is Let && s->Let_mutable ==> scan_stmt_of(s).0.contains(s->Let_name@),
        s is Assignment ==> scan_stmt_of(s).0.contains(s->Assignment_name@),
{
}

/// Every statement of a block is scanned with the block.
pub proof fn law_block_scans_each_statement(e: Expr, i: int)
    requires
        e is Block,
        0 <= i < e->Block_statements@.len(),
    ensures
        scan_stmt_of(e->Block_statements@[i]).0.subset_of(scan_of(e).0),
        scan_stmt_of(e->Block_statements@[i]).1.subset_of(scan_of(e).1),
{
    lemma_stmt_in_stmts(e->Block_statements@, i);
}

/// Each arm of a handler captures the names its body references freely, less
/// the arm's own parameters.
pub proof fn law_handler_arm_captures(e: Expr, k: int)
    requires
        e is Handler,
        0 <= k < e->Handler_arms@.len(),
    ensures
        free(e->Handler_arms@[k].body, texts(e->Handler_arms@[k].params@)).subset_of(
            scan_of(e).1,
        ),
{
    lemma_arm_in_handlers(e->Handler_arms@, k);
}

/// In a block with a `mut` binding `m` and a handler bound by a `let` (or
/// evaluated as a statement) one of whose arms references `m` freely, `m` is
/// among the block's captured mutables: it is what `captured_mut_vars`
/// returns it in.
pub proof fn law_handler_in_statement_captures_mutable(e: Expr, i: int, j: int, k: int)
    requires
        e is Block,
        0 <= i < e->Block_statements@.len(),
        e->Block_statements@[i] is Let,
        e->Block_statements@[i]->Let_mutable,
        0 <= j < e->Block_statements@.len(),
        e->Block_statements@[j] is Let ==> e->Block_statements@[j]->Let_value is Handler,
        e->Block_statements@[j] is Expr ==> e->Block_statements@[j]->Expr_value is Handler,
        e->Block_statements@[j] is Let || e->Block_statements@[j] is Expr,
        ({
            let h = if e->Block_statements@[j] is Let {
                e->Block_statements@[j]->Let_value
            } else {
                e->Block_statements@[j]->Expr_value
            };
            &&& 0 <= k < h->Handler_arms@.len()
            &&& free(h->Handler_arms@[k].body, texts(h->Handler_arms@[k].params@)).contains(
                e->Block_statements@[i]->Let_name@,
            )
        }),
    ensures
        scan_of(e).0.intersect(scan_of(e).1).contains(e->Block_statements@[i]->Let_name@),
{
    let ss = e->Block_statements@;
    let h = if ss[j] is Let {
        ss[j]->Let_value
    } else {
        ss[j]->Expr_value
    };
    law_mutable_bindings_found(ss[i]);
    law_block_scans_each_statement(e, i);
    law_block_scans_each_statement(e, j);
    law_statement_value_scanned(ss[j]);
    law_handler_arm_captures(h, k);
}

/// One binding shared by every arm of a single `handle` region, captured into
/// the region's environment.
#[derive(Debug)]
pub enum ArmCap {
    /// A handler-captured mutable: the env carries the heap cell's `i8*`
    /// pointer so arms `load`/`store` the same slot.
    Cell { name: String, ptr: String, pointee: LType, osp_ty: Option<String> },
    /// Any other free variable: captured by value, closure-style.
    Val { name: String, val: Value },
}

impl ArmCap {
    /// The env-slot LLVM type: a cell travels as its `i8*` pointer, a value as
    /// its own travelling type.
    pub fn slot_ty(&self) -> (r: String)
        ensures
            r@ == match self {
                ArmCap::Cell { .. } => "i8*"@,
                ArmCap::Val { val, .. } => val.travels_as(),
            },
    {
        match self {
            ArmCap::Cell { .. } => owned("i8*"),
            ArmCap::Val { val, .. } => val.llvm_ty(),
        }
    }
}

/// One operation a resuming handler's dispatcher drives: the operation's id,
/// its name, its signature, and the arm function that handles it.
#[derive(Debug, Clone)]
pub struct DriveArm {
    pub op_id: usize,
    pub operation: String,
    pub sig: OpSig,
    pub arm_fn: String,
}

/// Each instruction on a line of its own, indented, without a location (a
/// nested function has no debug subprogram).
pub open spec fn plain(bodies: Seq<Seq<char>>) -> Seq<Seq<char>> {
    bodies.map_values(|b: Seq<char>| "  "@ + b)
}

/// A call of the coroutine runtime function `f` on the coroutine.
pub open spec fn coro_call(f: Seq<char>) -> Seq<char> {
    call_text("i64"@, f, "i8*"@, seq!["%__coro"@])
}

/// The abort of the coroutine.
pub open spec fn coro_abort() -> Seq<char> {
    call_text("void"@, "__osprey_coro_abort"@, "i8*"@, seq!["%__coro"@])
}

/// The registers the unpacking of a parameter of type `ty` draws: the raw
/// word, and its conversion when it is not an `i64`.
pub open spec fn unpack_regs(ty: LType) -> nat {
    if ty == LType::I64 {
        1
    } else {
        2
    }
}

/// The instructions that fetch argument `j` of the suspended operation and
/// recover it at type `ty`, the first register free being `m`.
pub open spec fn unpack_bodies(ty: LType, j: nat, m: nat) -> Seq<Seq<char>> {
    seq![
        register(m) + " = "@ + call_text("i64"@, "__osprey_coro_arg"@, "i8*, i64"@, seq!["%__coro"@, decimal(j)]),
    ] + match unword_rhs(register(m), ty) {
        Some(rhs) => seq![register(m + 1) + " = "@ + rhs],
        None => Seq::empty(),
    }
}

/// The typed operand of argument unpacked from register `m`.
pub open spec fn unpacked_arg(ty: LType, m: nat) -> Seq<char> {
    ty.spelling() + " "@ + if ty == LType::I64 {
        register(m)
    } else {
        register(m + 1)
    }
}

/// The registers the unpacking of `params` draws.
pub open spec fn args_regs(params: Seq<LType>) -> nat
    decreases params.len(),
{
    if params.len() == 0 {
        0
    } else {
        args_regs(params.drop_last()) + unpack_regs(params.last())
    }
}

/// The instructions that unpack `params`, the first register free being `m`.
pub open spec fn args_bodies(params: Seq<LType>, m: nat) -> Seq<Seq<char>>
    decreases params.len(),
{
    if params.len() == 0 {
        Seq::empty()
    } else {
        let k = (params.len() - 1) as nat;
        args_bodies(params.drop_last(), m) + unpack_bodies(
            params.last(),
            k,
            m + args_regs(params.drop_last()),
        )
    }
}

/// The typed operands unpacked from `params`, the first register free being
/// `m`.
pub open spec fn args_typed(params: Seq<LType>, m: nat) -> Seq<Seq<char>>
    decreases params.len(),
{
    if params.len() == 0 {
        Seq::empty()
    } else {
        args_typed(params.drop_last(), m).push(
            unpacked_arg(params.last(), m + args_regs(params.drop_last())),
        )
    }
}

/// The registers the dispatch of one arm draws.
pub open spec fn arm_regs(arm: DriveArm) -> nat {
    args_regs(arm.sig.params@) + 3
}

/// The registers the dispatch of the first `j` arms draws.
pub open spec fn arms_regs(arms: Seq<DriveArm>, j: nat) -> nat
    decreases j,
{
    if j == 0 {
        0
    } else {
        arms_regs(arms, (j - 1) as nat) + arm_regs(arms[j - 1])
    }
}

/// The label of the `i`-th operation test, of `k`.
pub open spec fn check_label(i: nat) -> Seq<char> {
    label(3 + i)
}

/// The test of the `i`-th of `k` operations, dispatching on the operation
/// id in `%r3`: its block, then a branch to its arm or to the next test (the
/// miss block after the last).
pub open spec fn check_lines(arms: Seq<DriveArm>, k: nat, i: nat) -> Seq<Seq<char>> {
    seq![check_label(i) + ":"@] + plain(
        seq![
            register(4 + i) + " = "@ + "icmp eq i64 "@ + register(3) + ", "@ + decimal(arms[i as int].op_id as nat),
            "br i1 "@ + register(4 + i) + ", label %"@ + label(3 + k + i) + ", label %"@ + if i + 1 < k {
                check_label(i + 1)
            } else {
                label(2)
            },
        ],
    )
}

/// The tests of the first `j` of `k` operations.
pub open spec fn checks_lines(arms: Seq<DriveArm>, k: nat, j: nat) -> Seq<Seq<char>>
    decreases j,
{
    if j == 0 {
        Seq::empty()
    } else {
        checks_lines(arms, k, (j - 1) as nat) + check_lines(arms, k, (j - 1) as nat)
    }
}

/// The dispatch of the `i`-th of `k` operations, its registers starting at
/// `m`: unpack its arguments, call its arm function, and return the arm's
/// answer, aborting the coroutine first when it is not done.
pub open spec fn arm_lines(arm: DriveArm, k: nat, i: nat, m: nat) -> Seq<Seq<char>> {
    let a = args_regs(arm.sig.params@);
    let b = 3 + 2 * k + 2 * i;
    let result = register(m + a);
    seq![label(3 + k + i) + ":"@] + plain(
        args_bodies(arm.sig.params@, m) + seq![
            result + " = "@ + "call i64 @"@ + arm.arm_fn@ + "("@ + joined(
                seq!["i8* %__env"@, "i8* %__coro"@] + args_typed(arm.sig.params@, m),
                ", "@,
            ) + ")"@,
            register(m + a + 1) + " = "@ + coro_call("__osprey_coro_done"@),
            register(m + a + 2) + " = "@ + "icmp ne i64 "@ + register(m + a + 1) + ", 0"@,
            "br i1 "@ + register(m + a + 2) + ", label %"@ + label(b + 1) + ", label %"@ + label(b),
        ],
    ) + seq![label(b) + ":"@] + plain(seq![coro_abort(), "br label %"@ + label(b + 1)]) + seq![
        label(b + 1) + ":"@,
    ] + plain(seq!["ret i64 "@ + result])
}

/// The dispatches of the first `j` of `k` operations.
pub open spec fn arms_lines(arms: Seq<DriveArm>, k: nat, j: nat) -> Seq<Seq<char>>
    decreases j,
{
    if j == 0 {
        Seq::empty()
    } else {
        let i = (j - 1) as nat;
        arms_lines(arms, k, i) + arm_lines(arms[i as int], k, i, 4 + k + arms_regs(arms, i))
    }
}

/// The entry of the dispatcher of `k` operations: when the coroutine is
/// done, answer its result; otherwise fetch its pending operation and go to
/// the first test (the miss block when there is none).
pub open spec fn head_lines(k: nat) -> Seq<Seq<char>> {
    seq!["entry:"@] + plain(
        seq![
            register(0) + " = "@ + coro_call("__osprey_coro_done"@),
            register(1) + " = "@ + "icmp ne i64 "@ + register(0) + ", 0"@,
            "br i1 "@ + register(1) + ", label %"@ + label(0) + ", label %"@ + label(1),
        ],
    ) + seq![label(0) + ":"@] + plain(
        seq![register(2) + " = "@ + coro_call("__osprey_coro_result"@), "ret i64 "@ + register(2)],
    ) + seq![label(1) + ":"@] + plain(
        seq![
            register(3) + " = "@ + coro_call("__osprey_coro_op"@),
            "br label %"@ + if k > 0 {
                check_label(0)
            } else {
                label(2)
            },
        ],
    )
}

/// The miss block of a dispatcher: abort the coroutine.
pub open spec fn miss_lines() -> Seq<Seq<char>> {
    seq![label(2) + ":"@] + plain(seq![coro_abort(), "ret i64 0"@])
}

/// The body of the dispatcher of `arms`: when the coroutine is done, answer
/// its result; otherwise test its pending operation against each arm's id in
/// turn and dispatch to the matching arm, aborting the coroutine when none
/// matches.
pub open spec fn drive_lines(arms: Seq<DriveArm>) -> Seq<Seq<char>> {
    let k = arms.len();
    head_lines(k) + checks_lines(arms, k, k) + arms_lines(arms, k, k) + miss_lines()
}

/// The two parameters of a dispatcher: the handler environment and the
/// coroutine.
pub open spec fn drive_params(params: Seq<(LType, String)>) -> bool {
    &&& params.len() == 2
    &&& params[0].0 == LType::Ptr && params[0].1@ == "__env"@
    &&& params[1].0 == LType::Ptr && params[1].1@ == "__coro"@
}

/// Nothing emitted now is tagged with a location.
pub open spec fn unlocated(c: Codegen) -> bool {
    location_of(c.debug()) is None
}

/// Untagged instructions, as emitted where nothing is located.
proof fn lemma_unlocated_lines(d: Option<DebugState>, b: Seq<Seq<char>>)
    requires
        location_of(d) is None,
    ensures
        located_lines(b, d) == plain(b),
{
    assert(located_lines(b, d) =~= plain(b));
}

/// Emit `body` where nothing is located.
fn put(cg: &mut Codegen, body: &str)
    requires
        old(cg).wf(),
        unlocated(*old(cg)),
        old(cg).debug_fits(1),
    ensures
        final(cg).wf(),
        final(cg).state() == (Emission { lines: old(cg).state().lines.push("  "@ + body@), ..old(cg).state() }),
        final(cg).debug() == old(cg).debug(),
        final(cg).coverage() == old(cg).coverage(),
{
    cg.emit(body);
}

/// Emit `r = rhs` where nothing is located, answering `r`.
fn put_reg(cg: &mut Codegen, rhs: &str) -> (r: String)
    requires
        old(cg).wf(),
        unlocated(*old(cg)),
        old(cg).state().regs < usize::MAX,
        old(cg).debug_fits(1),
    ensures
        final(cg).wf(),
        r@ == register(old(cg).state().regs as nat),
        final(cg).state() == (Emission {
            regs: (old(cg).state().regs + 1) as usize,
            lines: old(cg).state().lines.push("  "@ + (r@ + " = "@ + rhs@)),
            ..old(cg).state()
        }),
        final(cg).debug() == old(cg).debug(),
        final(cg).coverage() == old(cg).coverage(),
{
    cg.emit_reg(rhs)
}

/// Declare and call `f` where nothing is located, answering the result
/// register.
fn put_call(cg: &mut Codegen, ret: &str, f: &str, params: &str, args: &[&str]) -> (r: String)
    requires
        old(cg).wf(),
        unlocated(*old(cg)),
        old(cg).state().regs < usize::MAX,
        old(cg).debug_fits(1),
    ensures
        final(cg).wf(),
        r@ == register(old(cg).state().regs as nat),
        final(cg).state().externs.to_set() == old(cg).state().externs.to_set().insert(
            declaration(ret@, f@, params@),
        ),
        final(cg).state() == (Emission {
            externs: final(cg).state().externs,
            regs: (old(cg).state().regs + 1) as usize,
            lines: old(cg).state().lines.push("  "@ + (r@ + " = "@ + call_text(ret@, f@, params@, arg_texts(args@)))),
            ..old(cg).state()
        }),
        final(cg).debug() == old(cg).debug(),
        final(cg).coverage() == old(cg).coverage(),
{
    cg.call(ret, f, params, args)
}

/// Declare and call the `void` function `f` where nothing is located.
fn put_void(cg: &mut Codegen, f: &str, params: &str, args: &[&str])
    requires
        old(cg).wf(),
        unlocated(*old(cg)),
        old(cg).debug_fits(1),
    ensures
        final(cg).wf(),
        final(cg).state().externs.to_set() == old(cg).state().externs.to_set().insert(
            declaration("void"@, f@, params@),
        ),
        final(cg).state() == (Emission {
            externs: final(cg).state().externs,
            lines: old(cg).state().lines.push("  "@ + call_text("void"@, f@, params@, arg_texts(args@))),
            ..old(cg).state()
        }),
        final(cg).debug() == old(cg).debug(),
        final(cg).coverage() == old(cg).coverage(),
{
    cg.call_void(f, params, args)
}

/// The runtime functions every dispatcher calls.
pub open spec fn drive_base_decls() -> Set<Seq<char>> {
    set![
        declaration("i64"@, "__osprey_coro_done"@, "i8*"@),
        declaration("i64"@, "__osprey_coro_result"@, "i8*"@),
        declaration("i64"@, "__osprey_coro_op"@, "i8*"@),
        declaration("void"@, "__osprey_coro_abort"@, "i8*"@),
    ]
}

/// Whether one of the first `j` arms takes arguments.
pub open spec fn any_args(arms: Seq<DriveArm>, j: int) -> bool {
    exists|i: int| 0 <= i < j && #[trigger] arms[i].sig.params@.len() > 0
}

/// The runtime functions the dispatcher of `arms` declares.
pub open spec fn drive_decls(arms: Seq<DriveArm>) -> Set<Seq<char>> {
    drive_base_decls() + if any_args(arms, arms.len() as int) {
        set![declaration("i64"@, "__osprey_coro_arg"@, "i8*, i64"@)]
    } else {
        Set::empty()
    }
}

/// `cg` is `base` with only the per-function lines, counters and block of
/// the nested function advanced.
pub open spec fn nested_at(
    cg: Codegen,
    base: Codegen,
    regs: nat,
    labels: nat,
    lines: Seq<Seq<char>>,
) -> bool {
    &&& cg.wf()
    &&& cg.state() == (Emission {
        externs: cg.state().externs,
        regs: regs as usize,
        labels: labels as usize,
        lines: lines,
        block: cg.state().block,
        ..base.state()
    })
    &&& cg.debug() == base.debug()
    &&& cg.coverage() == base.coverage()
}

/// Unpack the arguments of arm `arm` into its argument list, the first
/// register free being `m`.
fn unpack_args(cg: &mut Codegen, arm: &DriveArm, args: &mut Vec<String>, Ghost(base): Ghost<Codegen>)
    requires
        old(cg).wf(),
        unlocated(*old(cg)),
        old(cg).debug() == base.debug(),
        old(cg).debug_fits(1),
        old(cg).state().regs + args_regs(arm.sig.params@) + 1 <= usize::MAX,
    ensures
        ({
            let m = old(cg).state().regs as nat;
            let ps = arm.sig.params@;
            &&& final(cg).wf()
            &&& final(cg).state() == (Emission {
                externs: final(cg).state().externs,
                regs: (m + args_regs(ps)) as usize,
                lines: old(cg).state().lines + plain(args_bodies(ps, m)),
                ..old(cg).state()
            })
            &&& final(cg).debug() == old(cg).debug()
            &&& final(cg).coverage() == old(cg).coverage()
            &&& texts(final(args)@) == texts(old(args)@) + args_typed(ps, m)
            &&& final(cg).state().externs.to_set() == old(cg).state().externs.to_set() + if ps.len() > 0 {
                set![declaration("i64"@, "__osprey_coro_arg"@, "i8*, i64"@)]
            } else {
                Set::empty()
            }
        }),
{
    let ghost c0 = *cg;
    let ghost m = c0.state().regs as nat;
    let ghost a0 = texts(args@);
    let ghost ps = arm.sig.params@;
    let ghost arg_decl = declaration("i64"@, "__osprey_coro_arg"@, "i8*, i64"@);
    let mut j: usize = 0;
    proof {
        assert(ps.subrange(0, 0) =~= Seq::<LType>::empty());
        assert(c0.state().lines + plain(args_bodies(ps.subrange(0, 0), m)) =~= c0.state().lines);
        assert(a0 + args_typed(ps.subrange(0, 0), m) =~= a0);
        assert(c0.state().externs.to_set() + Set::<Seq<char>>::empty() =~= c0.state().externs.to_set());
    }
    while j < arm.sig.params.len()
        invariant
            c0 == *old(cg),
            m == c0.state().regs as nat,
            ps == arm.sig.params@,
            arg_decl == declaration("i64"@, "__osprey_coro_arg"@, "i8*, i64"@),
            j <= ps.len(),
            unlocated(c0),
            c0.debug_fits(1),
            c0.state().regs + args_regs(ps) + 1 <= usize::MAX,
            cg.wf(),
            cg.state() == (Emission {
                externs: cg.state().externs,
                regs: (m + args_regs(ps.subrange(0, j as int))) as usize,
                lines: c0.state().lines + plain(args_bodies(ps.subrange(0, j as int), m)),
                ..c0.state()
            }),
            cg.debug() == c0.debug(),
            cg.coverage() == c0.coverage(),
            texts(args@) == a0 + args_typed(ps.subrange(0, j as int), m),
            cg.state().externs.to_set() == c0.state().externs.to_set() + if j > 0 {
                set![arg_decl]
            } else {
                Set::empty()
            },
        decreases ps.len() - j,
    {
        let ghost pre = ps.subrange(0, j as int);
        let ghost post = ps.subrange(0, j + 1);
        proof {
            assert(post.drop_last() =~= pre);
            assert(post.last() == ps[j as int]);
            lemma_args_regs_prefix(ps, j + 1);
            assert(args_regs(post) == args_regs(pre) + unpack_regs(ps[j as int]));
        }
        let mut idx = String::new();
        push_decimal(&mut idx, j as u64);
        assert(idx@ =~= decimal(j as nat));
        let call_args: [&str; 2] = ["%__coro", idx.as_str()];
        let ghost r_at = cg.state().regs as nat;
        let ghost s_before = cg.state().externs.to_set();
        let raw = put_call(cg, "i64", "__osprey_coro_arg", "i8*, i64", &call_args);
        let ghost c1 = *cg;
        assert(c1.state().externs.to_set() == s_before.insert(arg_decl));
        let pty = arm.sig.params[j];
        let value = unbox_from_i64(cg, raw.as_str(), pty);
        proof {
            lemma_unlocated_lines(c1.debug(), seq![register(r_at + 1) + " = "@ + unword_rhs(raw@, pty)->0]);
        }
        let typed = value.typed();
        let ghost tv = typed@;
        let ghost args0 = args@;
        args.push(typed);
        proof {
            assert(arg_texts(call_args@) =~= seq!["%__coro"@, decimal(j as nat)]);
            assert(texts(args@) =~= texts(args0).push(tv));
            assert(args_typed(post, m) == args_typed(pre, m).push(unpacked_arg(pty, m + args_regs(pre))));
            assert(texts(args@) =~= a0 + args_typed(post, m));
            assert(args_bodies(post, m) == args_bodies(pre, m) + unpack_bodies(pty, j as nat, m + args_regs(pre)));
            assert(cg.state().lines =~= c0.state().lines + plain(args_bodies(post, m)));
            assert(cg.state().externs == c1.state().externs);
            assert(s_before.insert(arg_decl) =~= c0.state().externs.to_set() + set![arg_decl]);
        }
        j = j + 1;
    }
    assert(ps.subrange(0, j as int) =~= ps);
}

/// The registers of a prefix of the parameters are at most those of all.
proof fn lemma_args_regs_prefix(ps: Seq<LType>, j: int)
    requires
        0 <= j <= ps.len(),
    ensures
        args_regs(ps.subrange(0, j)) <= args_regs(ps),
    decreases ps.len() - j,
{
    if j < ps.len() {
        lemma_args_regs_prefix(ps, j + 1);
        assert(ps.subrange(0, j + 1).drop_last() =~= ps.subrange(0, j));
    } else {
        assert(ps.subrange(0, j) =~= ps);
    }
}

/// Emit the test of one operation: open its block `check`, compare the
/// pending operation id in `op` with the arm's, and branch to `target` on a
/// match, to `next` otherwise.
fn emit_check(cg: &mut Codegen, op: &str, arm: &DriveArm, check: &str, target: &str, next: &str)
    requires
        old(cg).wf(),
        unlocated(*old(cg)),
        old(cg).debug_fits(1),
        old(cg).state().regs < usize::MAX,
    ensures
        ({
            let n = old(cg).state().regs as nat;
            &&& final(cg).wf()
            &&& final(cg).state() == (Emission {
                regs: (n + 1) as usize,
                lines: old(cg).state().lines + seq![check@ + ":"@] + plain(
                    seq![
                        register(n) + " = "@ + "icmp eq i64 "@ + op@ + ", "@ + decimal(arm.op_id as nat),
                        "br i1 "@ + register(n) + ", label %"@ + target@ + ", label %"@ + next@,
                    ],
                ),
                block: check@,
                ..old(cg).state()
            })
            &&& final(cg).debug() == old(cg).debug()
            &&& final(cg).coverage() == old(cg).coverage()
        }),
{
    cg.start_block(check);
    let mut test = owned("icmp eq i64 ");
    test.append(op);
    test.append(", ");
    push_decimal(&mut test, arm.op_id as u64);
    let hit = put_reg(cg, test.as_str());
    let mut br = owned("br i1 ");
    br.append(hit.as_str());
    br.append(", label %");
    br.append(target);
    br.append(", label %");
    br.append(next);
    put(cg, br.as_str());
    let ghost n = old(cg).state().regs as nat;
    assert(cg.state().lines =~~= old(cg).state().lines + seq![check@ + ":"@] + plain(
        seq![
            register(n) + " = "@ + "icmp eq i64 "@ + op@ + ", "@ + decimal(arm.op_id as nat),
            "br i1 "@ + register(n) + ", label %"@ + target@ + ", label %"@ + next@,
        ],
    ));
}

/// Emit the dispatch of the `i`-th of `k` operations from its block
/// `arm_label`.
#[verifier::rlimit(80)]
fn emit_arm(cg: &mut Codegen, arm: &DriveArm, k: usize, i: usize, arm_label: &str, Ghost(base): Ghost<Codegen>)
    requires
        old(cg).wf(),
        unlocated(*old(cg)),
        old(cg).debug() == base.debug(),
        old(cg).debug_fits(1),
        arm_label@ == label((3 + k + i) as nat),
        old(cg).state().labels == 3 + 2 * k + 2 * i,
        old(cg).state().labels + 2 <= usize::MAX,
        old(cg).state().regs + arm_regs(*arm) <= usize::MAX,
    ensures
        ({
            let m = old(cg).state().regs as nat;
            let ps = arm.sig.params@;
            &&& final(cg).wf()
            &&& final(cg).state() == (Emission {
                externs: final(cg).state().externs,
                regs: (m + arm_regs(*arm)) as usize,
                labels: (old(cg).state().labels + 2) as usize,
                lines: old(cg).state().lines + arm_lines(*arm, k as nat, i as nat, m),
                block: final(cg).state().block,
                ..old(cg).state()
            })
            &&& final(cg).debug() == old(cg).debug()
            &&& final(cg).coverage() == old(cg).coverage()
            &&& final(cg).state().externs.to_set() == old(cg).state().externs.to_set() + set![
                declaration("i64"@, "__osprey_coro_done"@, "i8*"@),
                declaration("void"@, "__osprey_coro_abort"@, "i8*"@),
            ] + if ps.len() > 0 {
                set![declaration("i64"@, "__osprey_coro_arg"@, "i8*, i64"@)]
            } else {
                Set::empty()
            }
        }),
{
    let ghost c0 = *cg;
    let ghost m = c0.state().regs as nat;
    let ghost ps = arm.sig.params@;
    cg.start_block(arm_label);
    let mut args: Vec<String> = Vec::new();
    args.push(owned("i8* %__env"));
    args.push(owned("i8* %__coro"));
    proof {
        assert(texts(args@) =~= seq!["i8* %__env"@, "i8* %__coro"@]);
    }
    let ghost c1 = *cg;
    unpack_args(cg, arm, &mut args, Ghost(base));
    let ghost c2 = *cg;
    let joined_args = join(args.as_slice(), ", ");
    let mut call = owned("call i64 @");
    call.append(arm.arm_fn.as_str());
    call.append("(");
    call.append(joined_args.as_str());
    call.append(")");
    let result = put_reg(cg, call.as_str());
    let coro: [&str; 1] = ["%__coro"];
    let done_after = put_call(cg, "i64", "__osprey_coro_done", "i8*", &coro);
    let mut test = owned("icmp ne i64 ");
    test.append(done_after.as_str());
    test.append(", 0");
    let cond = put_reg(cg, test.as_str());
    let abort_lbl = cg.fresh_label();
    let return_lbl = cg.fresh_label();
    let mut br = owned("br i1 ");
    br.append(cond.as_str());
    br.append(", label %");
    br.append(return_lbl.as_str());
    br.append(", label %");
    br.append(abort_lbl.as_str());
    put(cg, br.as_str());
    cg.start_block(abort_lbl.as_str());
    put_void(cg, "__osprey_coro_abort", "i8*", &coro);
    let mut jump = owned("br label %");
    jump.append(return_lbl.as_str());
    put(cg, jump.as_str());
    cg.start_block(return_lbl.as_str());
    let mut ret = owned("ret i64 ");
    ret.append(result.as_str());
    put(cg, ret.as_str());
    proof {
        let a = args_regs(ps);
        let b = (3 + 2 * k + 2 * i) as nat;
        assert(arg_texts(coro@) =~= seq!["%__coro"@]);
        assert(c2.state().lines == c0.state().lines + seq![arm_label@ + ":"@] + plain(args_bodies(ps, m)));
        assert(cg.state().lines =~~= c0.state().lines + arm_lines(*arm, k as nat, i as nat, m));
        let sets = c0.state().externs.to_set();
        let extra = if ps.len() > 0 {
            set![declaration("i64"@, "__osprey_coro_arg"@, "i8*, i64"@)]
        } else {
            Set::empty()
        };
        assert(cg.state().externs.to_set() =~= sets + set![
            declaration("i64"@, "__osprey_coro_done"@, "i8*"@),
            declaration("void"@, "__osprey_coro_abort"@, "i8*"@),
        ] + extra);
    }
}

/// `k` fresh labels, in order.
fn fresh_labels(cg: &mut Codegen, k: usize) -> (r: Vec<String>)
    requires
        old(cg).state().labels + k <= usize::MAX,
    ensures
        texts(r@) == Seq::new(k as nat, |i: int| label((old(cg).state().labels + i) as nat)),
        final(cg).state() == (Emission {
            labels: (old(cg).state().labels + k) as usize,
            ..old(cg).state()
        }),
        final(cg).wf() == old(cg).wf(),
        final(cg).debug() == old(cg).debug(),
        final(cg).coverage() == old(cg).coverage(),
{
    let mut r: Vec<String> = Vec::new();
    let ghost l0 = old(cg).state().labels as nat;
    let mut i: usize = 0;
    while i < k
        invariant
            i <= k,
            l0 == old(cg).state().labels as nat,
            old(cg).state().labels + k <= usize::MAX,
            texts(r@) == Seq::new(i as nat, |j: int| label((l0 + j) as nat)),
            cg.state() == (Emission { labels: (l0 + i) as usize, ..old(cg).state() }),
            cg.wf() == old(cg).wf(),
            cg.debug() == old(cg).debug(),
            cg.coverage() == old(cg).coverage(),
        decreases k - i,
    {
        let l = cg.fresh_label();
        let ghost r0 = r@;
        let ghost lv = l@;
        r.push(l);
        assert(texts(r@) =~= Seq::new((i + 1) as nat, |j: int| label((l0 + j) as nat))) by {
            assert(texts(r@) =~= texts(r0).push(lv));
        }
        i = i + 1;
    }
    r
}

/// The three runtime functions the entry of every dispatcher calls.
pub open spec fn head_decls() -> Set<Seq<char>> {
    set![
        declaration("i64"@, "__osprey_coro_done"@, "i8*"@),
        declaration("i64"@, "__osprey_coro_result"@, "i8*"@),
        declaration("i64"@, "__osprey_coro_op"@, "i8*"@),
    ]
}

/// Emit the entry of the dispatcher of `k` operations into a fresh nested
/// function, answering the operation register and the labels: the miss
/// block, the `k` tests, the `k` arms.
fn emit_drive_head(cg: &mut Codegen, k: usize) -> (r: (String, String, Vec<String>, Vec<String>))
    requires
        old(cg).wf(),
        unlocated(*old(cg)),
        old(cg).debug_fits(1),
        old(cg).state().regs == 0,
        old(cg).state().labels == 0,
        old(cg).state().lines == seq!["entry:"@],
        3 + 4 * k <= usize::MAX,
    ensures
        r.0@ == register(3),
        r.1@ == label(2),
        texts(r.2@) == Seq::new(k as nat, |j: int| label((3 + j) as nat)),
        texts(r.3@) == Seq::new(k as nat, |j: int| label((3 + k + j) as nat)),
        r.2@.len() == k,
        r.3@.len() == k,
        nested_at(*final(cg), *old(cg), 4, 3 + 2 * k as nat, head_lines(k as nat)),
        final(cg).state().externs.to_set() == old(cg).state().externs.to_set() + head_decls(),
{
    let coro: [&str; 1] = ["%__coro"];
    proof {
        assert(arg_texts(coro@) =~= seq!["%__coro"@]);
    }
    let done = put_call(cg, "i64", "__osprey_coro_done", "i8*", &coro);
    let mut test = owned("icmp ne i64 ");
    test.append(done.as_str());
    test.append(", 0");
    let done_cond = put_reg(cg, test.as_str());
    let done_lbl = cg.fresh_label();
    let dispatch_lbl = cg.fresh_label();
    let mut br = owned("br i1 ");
    br.append(done_cond.as_str());
    br.append(", label %");
    br.append(done_lbl.as_str());
    br.append(", label %");
    br.append(dispatch_lbl.as_str());
    put(cg, br.as_str());
    cg.start_block(done_lbl.as_str());
    let result = put_call(cg, "i64", "__osprey_coro_result", "i8*", &coro);
    let mut ret = owned("ret i64 ");
    ret.append(result.as_str());
    put(cg, ret.as_str());
    cg.start_block(dispatch_lbl.as_str());
    let op = put_call(cg, "i64", "__osprey_coro_op", "i8*", &coro);
    let miss_lbl = cg.fresh_label();
    let check_labels = fresh_labels(cg, k);
    let arm_labels = fresh_labels(cg, k);
    proof {
        assert(texts(check_labels@).len() == check_labels@.len());
        assert(texts(arm_labels@).len() == arm_labels@.len());
        if k > 0 {
            assert(check_labels@[0]@ == texts(check_labels@)[0]);
        }
    }
    let mut first = owned("br label %");
    if k > 0 {
        first.append(check_labels[0].as_str());
    } else {
        first.append(miss_lbl.as_str());
    }
    put(cg, first.as_str());
    proof {
        assert(cg.state().lines =~~= head_lines(k as nat));
        assert(cg.state().externs.to_set() =~= old(cg).state().externs.to_set() + head_decls());
    }
    (op, miss_lbl, check_labels, arm_labels)
}

/// Emit the tests of the `k` operations of `arms`.
fn emit_checks(
    cg: &mut Codegen,
    op: &str,
    arms: &[DriveArm],
    check_labels: &Vec<String>,
    arm_labels: &Vec<String>,
    miss: &str,
)
    requires
        old(cg).wf(),
        unlocated(*old(cg)),
        old(cg).debug_fits(1),
        op@ == register(3),
        miss@ == label(2),
        texts(check_labels@) == Seq::new(arms@.len(), |j: int| label((3 + j) as nat)),
        texts(arm_labels@) == Seq::new(arms@.len(), |j: int| label((3 + arms@.len() + j) as nat)),
        check_labels@.len() == arms@.len(),
        arm_labels@.len() == arms@.len(),
        old(cg).state().regs == 4,
        4 + arms@.len() <= usize::MAX,
    ensures
        nested_at(
            *final(cg),
            *old(cg),
            4 + arms@.len(),
            old(cg).state().labels as nat,
            old(cg).state().lines + checks_lines(arms@, arms@.len(), arms@.len()),
        ),
        final(cg).state().externs == old(cg).state().externs,
{
    let ghost k = arms@.len();
    let ghost c0 = *cg;
    proof {
        assert(c0.state().lines + checks_lines(arms@, k, 0) =~= c0.state().lines);
    }
    let mut i: usize = 0;
    while i < arms.len()
        invariant
            k == arms@.len(),
            i <= k,
            4 + k <= usize::MAX,
            c0 == *old(cg),
            unlocated(c0),
            c0.debug_fits(1),
            op@ == register(3),
            miss@ == label(2),
            texts(check_labels@) == Seq::new(k, |j: int| label((3 + j) as nat)),
            texts(arm_labels@) == Seq::new(k, |j: int| label((3 + k + j) as nat)),
            check_labels@.len() == k,
            arm_labels@.len() == k,
            nested_at(*cg, c0, (4 + i) as nat, c0.state().labels as nat, c0.state().lines + checks_lines(arms@, k, i as nat)),
            cg.state().externs == c0.state().externs,
        decreases k - i,
    {
        proof {
            assert(check_labels@[i as int]@ == texts(check_labels@)[i as int]);
            assert(arm_labels@[i as int]@ == texts(arm_labels@)[i as int]);
            if i + 1 < k {
                assert(check_labels@[i + 1]@ == texts(check_labels@)[i + 1]);
            }
        }
        let next: &str = if i + 1 < arms.len() {
            check_labels[i + 1].as_str()
        } else {
            miss
        };
        emit_check(cg, op, &arms[i], check_labels[i].as_str(), arm_labels[i].as_str(), next);
        proof {
            assert(checks_lines(arms@, k, (i + 1) as nat) == checks_lines(arms@, k, i as nat) + check_lines(
                arms@,
                k,
                i as nat,
            ));
            assert(cg.state().lines =~~= c0.state().lines + checks_lines(arms@, k, (i + 1) as nat));
        }
        i = i + 1;
    }
}

/// The runtime functions the dispatch of the first `i` arms declares.
pub open spec fn arms_decls(arms: Seq<DriveArm>, i: int) -> Set<Seq<char>> {
    (if i > 0 {
        set![
            declaration("i64"@, "__osprey_coro_done"@, "i8*"@),
            declaration("void"@, "__osprey_coro_abort"@, "i8*"@),
        ]
    } else {
        Set::empty()
    }) + (if any_args(arms, i) {
        set![declaration("i64"@, "__osprey_coro_arg"@, "i8*, i64"@)]
    } else {
        Set::empty()
    })
}

/// Emit the dispatches of the `k` operations of `arms`.
fn emit_arms(cg: &mut Codegen, arms: &[DriveArm], arm_labels: &Vec<String>, Ghost(base): Ghost<Codegen>)
    requires
        old(cg).wf(),
        unlocated(*old(cg)),
        old(cg).debug() == base.debug(),
        old(cg).debug_fits(1),
        texts(arm_labels@) == Seq::new(arms@.len(), |j: int| label((3 + arms@.len() + j) as nat)),
        arm_labels@.len() == arms@.len(),
        old(cg).state().regs == 4 + arms@.len(),
        old(cg).state().labels == 3 + 2 * arms@.len(),
        3 + 4 * arms@.len() <= usize::MAX,
        4 + arms@.len() + arms_regs(arms@, arms@.len() as nat) <= usize::MAX,
    ensures
        nested_at(
            *final(cg),
            *old(cg),
            4 + arms@.len() + arms_regs(arms@, arms@.len() as nat),
            3 + 4 * arms@.len() as nat,
            old(cg).state().lines + arms_lines(arms@, arms@.len(), arms@.len()),
        ),
        final(cg).state().externs.to_set() == old(cg).state().externs.to_set() + arms_decls(
            arms@,
            arms@.len() as int,
        ),
{
    let ghost k = arms@.len();
    let ghost c0 = *cg;
    proof {
        assert(c0.state().lines + arms_lines(arms@, k, 0) =~= c0.state().lines);
        assert(c0.state().externs.to_set() + arms_decls(arms@, 0) =~= c0.state().externs.to_set());
    }
    let mut i: usize = 0;
    while i < arms.len()
        invariant
            k == arms@.len(),
            i <= k,
            c0 == *old(cg),
            3 + 4 * k <= usize::MAX,
            4 + k + arms_regs(arms@, k) <= usize::MAX,
            texts(arm_labels@) == Seq::new(k, |j: int| label((3 + k + j) as nat)),
            arm_labels@.len() == k,
            unlocated(c0),
            c0.debug() == base.debug(),
            c0.debug_fits(1),
            nested_at(*cg, c0, 4 + k + arms_regs(arms@, i as nat), (3 + 2 * k + 2 * i) as nat, c0.state().lines + arms_lines(arms@, k, i as nat)),
            cg.state().externs.to_set() == c0.state().externs.to_set() + arms_decls(arms@, i as int),
        decreases k - i,
    {
        proof {
            lemma_arms_regs_mono(arms@, (i + 1) as nat, k);
            assert(arm_labels@[i as int]@ == texts(arm_labels@)[i as int]);
        }
        let ghost s_before = cg.state().externs.to_set();
        emit_arm(cg, &arms[i], arms.len(), i, arm_labels[i].as_str(), Ghost(base));
        proof {
            assert(arms_lines(arms@, k, (i + 1) as nat) == arms_lines(arms@, k, i as nat) + arm_lines(
                arms@[i as int],
                k,
                i as nat,
                4 + k + arms_regs(arms@, i as nat),
            ));
            assert(cg.state().lines =~~= c0.state().lines + arms_lines(arms@, k, (i + 1) as nat));
            if arms@[i as int].sig.params@.len() > 0 {
                assert(any_args(arms@, i + 1));
            }
            if any_args(arms@, i + 1) && !any_args(arms@, i as int) {
                let w = choose|w: int| 0 <= w < i + 1 && #[trigger] arms@[w].sig.params@.len() > 0;
                assert(w == i);
            }
            if any_args(arms@, i as int) {
                let w = choose|w: int| 0 <= w < i && #[trigger] arms@[w].sig.params@.len() > 0;
                assert(any_args(arms@, i + 1));
            }
            assert(cg.state().externs.to_set() =~= c0.state().externs.to_set() + arms_decls(arms@, i + 1));
        }
        i = i + 1;
    }
}

/// Emit the dispatcher of a resuming handler as a function `name` of the
/// handler environment and the coroutine: when the coroutine is done it
/// answers its result; otherwise it tests the pending operation against each
/// arm's id in turn, unpacks the operation's arguments for the matching arm,
/// calls the arm function, and answers the arm's result, aborting the
/// coroutine first when it did not finish; no match aborts the coroutine.
/// The function being emitted is suspended meanwhile and resumed after.
pub fn emit_drive_fn(cg: &mut Codegen, name: &str, arms: &[DriveArm])
    requires
        old(cg).wf(),
        old(cg).debug_fits(1),
        3 + 4 * arms@.len() <= usize::MAX,
        4 + arms@.len() + arms_regs(arms@, arms@.len() as nat) <= usize::MAX,
    ensures
        final(cg).wf(),
        final(cg).state() == (Emission {
            externs: final(cg).state().externs,
            funcs: old(cg).state().funcs.push(
                define_text(
                    "i64"@,
                    name@,
                    seq!["i8* %__env"@, "i8* %__coro"@],
                    Seq::empty(),
                    drive_lines(arms@),
                ),
            ),
            ..old(cg).state()
        }),
        final(cg).state().externs.to_set() == old(cg).state().externs.to_set() + drive_decls(arms@),
        final(cg).coverage() == old(cg).coverage(),
        match old(cg).debug() {
            Some(d) => final(cg).debug() matches Some(e) && {
                &&& e.wf()
                &&& e.nodes() == d.nodes()
                &&& e.next() == d.next()
                &&& e.scope() == d.scope()
                &&& e.position() == d.position()
                &&& e.retained() == d.retained()
                &&& e.locals() == d.locals()
                &&& e.source() == d.source()
                &&& e.dwarf() == d.dwarf()
            },
            None => final(cg).debug() is None,
        },
{
    proof {
        lemma_wf_debug(*old(cg));
    }
    let ghost k = arms@.len() as nat;
    let saved = cg.enter_nested_fn();
    let ghost base = *cg;
    let (op, miss_lbl, check_labels, arm_labels) = emit_drive_head(cg, arms.len());
    let ghost c1 = *cg;
    emit_checks(cg, op.as_str(), arms, &check_labels, &arm_labels, miss_lbl.as_str());
    let ghost c2 = *cg;
    emit_arms(cg, arms, &arm_labels, Ghost(base));
    let ghost c3 = *cg;
    cg.start_block(miss_lbl.as_str());
    let coro: [&str; 1] = ["%__coro"];
    put_void(cg, "__osprey_coro_abort", "i8*", &coro);
    put(cg, "ret i64 0");
    let mut params: Vec<(LType, String)> = Vec::new();
    params.push((LType::Ptr, owned("__env")));
    params.push((LType::Ptr, owned("__coro")));
    proof {
        assert(arg_texts(coro@) =~= seq!["%__coro"@]);
        assert(cg.state().lines =~~= drive_lines(arms@));
        assert(cg.state().externs.to_set() =~= old(cg).state().externs.to_set() + drive_decls(arms@)) by {
            if any_args(arms@, k as int) {
                let w = choose|w: int| 0 <= w < k && #[trigger] arms@[w].sig.params@.len() > 0;
                assert(k > 0);
            }
        }
        reveal_strlit("i8*");
        reveal_strlit(" %");
        reveal_strlit("__env");
        reveal_strlit("__coro");
        reveal_strlit("i8* %__env");
        reveal_strlit("i8* %__coro");
        assert(param_texts(params@) =~~= seq!["i8* %__env"@, "i8* %__coro"@]);
        if old(cg).debug() is Some {
            lemma_retained_pending(old(cg).debug()->0);
        }
    }
    cg.exit_nested_fn(saved, "i64", name, params.as_slice());
}

/// The registers of the first `i` arms are at most those of the first `j`.
proof fn lemma_arms_regs_mono(arms: Seq<DriveArm>, i: nat, j: nat)
    requires
        i <= j,
    ensures
        arms_regs(arms, i) <= arms_regs(arms, j),
    decreases j,
{
    if i < j {
        lemma_arms_regs_mono(arms, i, (j - 1) as nat);
    }
}

/// The coroutine runtime every resuming handler uses.
pub open spec fn coro_decls() -> Seq<Seq<char>> {
    seq![
        "declare i8* @__osprey_coro_new(i8*)"@,
        "declare void @__osprey_coro_start(i8*, i64 (i8*)*, i8*, i8*)"@,
        "declare i64 @__osprey_coro_suspend(i8*, i64, i64*, i64)"@,
        "declare i64 @__osprey_coro_resume(i8*, i64)"@,
        "declare i64 @__osprey_coro_done(i8*)"@,
        "declare i64 @__osprey_coro_op(i8*)"@,
        "declare i64 @__osprey_coro_arg(i8*, i64)"@,
        "declare i64 @__osprey_coro_result(i8*)"@,
        "declare void @__osprey_coro_abort(i8*)"@,
        "declare void @__osprey_coro_free(i8*)"@,
        "declare i8* @__osprey_handler_snapshot()"@,
    ]
}

/// Declare the coroutine runtime.
pub fn declare_coro(cg: &mut Codegen)
    requires
        old(cg).wf(),
    ensures
        final(cg).wf(),
        final(cg).state().externs.to_set() == old(cg).state().externs.to_set() + coro_decls().to_set(),
        final(cg).state() == (Emission { externs: final(cg).state().externs, ..old(cg).state() }),
        final(cg).debug() == old(cg).debug(),
        final(cg).coverage() == old(cg).coverage(),
{
    let decls: [&str; 11] = [
        "declare i8* @__osprey_coro_new(i8*)",
        "declare void @__osprey_coro_start(i8*, i64 (i8*)*, i8*, i8*)",
        "declare i64 @__osprey_coro_suspend(i8*, i64, i64*, i64)",
        "declare i64 @__osprey_coro_resume(i8*, i64)",
        "declare i64 @__osprey_coro_done(i8*)",
        "declare i64 @__osprey_coro_op(i8*)",
        "declare i64 @__osprey_coro_arg(i8*, i64)",
        "declare i64 @__osprey_coro_result(i8*)",
        "declare void @__osprey_coro_abort(i8*)",
        "declare void @__osprey_coro_free(i8*)",
        "declare i8* @__osprey_handler_snapshot()",
    ];
    let ghost want = coro_decls();
    assert(arg_texts(decls@) =~= want);
    let ghost s0 = old(cg).state().externs.to_set();
    let mut i: usize = 0;
    while i < 11
        invariant
            i <= 11,
            arg_texts(decls@) == want,
            want == coro_decls(),
            s0 == old(cg).state().externs.to_set(),
            cg.wf(),
            cg.state().externs.to_set() == s0 + want.subrange(0, i as int).to_set(),
            cg.state() == (Emission { externs: cg.state().externs, ..old(cg).state() }),
            cg.debug() == old(cg).debug(),
            cg.coverage() == old(cg).coverage(),
        decreases 11 - i,
    {
        cg.add_extern(decls[i]);
        proof {
            assert(decls@[i as int]@ == want[i as int]);
            assert(want.subrange(0, i + 1) =~= want.subrange(0, i as int).push(want[i as int]));
            want.subrange(0, i as int).lemma_push_to_set_commute(want[i as int]);
            assert(cg.state().externs.to_set() =~= s0 + want.subrange(0, i + 1).to_set());
        }
        i = i + 1;
    }
    assert(want.subrange(0, 11) =~= want);
}

/// The instructions that recover an operation result of type `ty` (a
/// `Result` block when `inner` is some) from the uniform `i64` word `raw`,
/// the first register free being `n`.
pub open spec fn coro_value_bodies(raw: Seq<char>, ty: LType, inner: Option<LType>, n: nat) -> Seq<Seq<char>> {
    match inner {
        Some(t) => seq![
            register(n) + " = "@ + "inttoptr i64 "@ + raw + " to i8*"@,
            register(n + 1) + " = "@ + "bitcast i8* "@ + register(n) + " to "@ + result_block(t) + "*"@,
        ],
        None => match unword_rhs(raw, ty) {
            Some(rhs) => seq![register(n) + " = "@ + rhs],
            None => Seq::empty(),
        },
    }
}

/// Recover an operation result of type `ty` from the uniform `i64` word
/// `raw`: a `Result<inner, _>` block pointer when `inner` is some, else as
/// [`unbox_from_i64`] does.
pub fn unbox_coro_value(cg: &mut Codegen, raw: &str, ty: LType, result_inner: Option<LType>) -> (r: Value)
    requires
        old(cg).wf(),
        old(cg).state().regs + 2 <= usize::MAX,
        old(cg).debug_fits(2),
    ensures
        final(cg).wf(),
        same_externs(*old(cg), *final(cg)),
        ({
            let n = old(cg).state().regs as nat;
            let bodies = coro_value_bodies(raw@, ty, result_inner, n);
            &&& emitted(*old(cg), *final(cg), bodies, bodies.len())
            &&& match result_inner {
                Some(t) => {
                    &&& r.operand@ == register(n + 1)
                    &&& r.ty == LType::Ptr
                    &&& r.result_inner == Some(t)
                    &&& opt_text(r.osp_ty) == Some("Result"@)
                    &&& (Value { osp_ty: None, result_inner: None, ..r }).is_plain()
                },
                None => {
                    &&& r.ty == ty
                    &&& r.is_plain()
                    &&& r.operand@ == if bodies.len() == 0 {
                        raw@
                    } else {
                        register(n)
                    }
                },
            }
        }),
{
    match result_inner {
        Some(inner) => {
            let ghost c0 = *cg;
            let mut cast = owned("inttoptr i64 ");
            cast.append(raw);
            cast.append(" to i8*");
            let ptr = cg.emit_reg(cast.as_str());
            let ghost c1 = *cg;
            let mut typed = owned("bitcast i8* ");
            typed.append(ptr.as_str());
            typed.append(" to ");
            let struct_ty = crate::llty::result_struct_ty(inner);
            typed.append(struct_ty.as_str());
            typed.append("*");
            let reg = cg.emit_reg(typed.as_str());
            proof {
                lemma_emitted_trans(c0, c1, *cg, seq![ptr@ + " = "@ + cast@], 1, seq![reg@ + " = "@ + typed@], 1);
                assert(seq![ptr@ + " = "@ + cast@] + seq![reg@ + " = "@ + typed@] =~~= coro_value_bodies(
                    raw@,
                    ty,
                    result_inner,
                    c0.state().regs as nat,
                ));
            }
            Value::result(reg.as_str(), inner)
        },
        None => {
            let v = unbox_from_i64(cg, raw, ty);
            proof {
                if unword_rhs(raw@, ty) is None {
                    lemma_emitted_none(*cg);
                }
            }
            v
        },
    }
}

/// Box a value crossing an effect boundary into the uniform `i64` word,
/// duplicating a managed one first (the boundary erases its pointer-ness, so
/// the receiving side owns +1).
pub fn box_codegen_value(cg: &mut Codegen, value: Value) -> (r: Value)
    requires
        old(cg).wf(),
        old(cg).state().regs + 3 <= usize::MAX,
        old(cg).debug_fits(3),
    ensures
        final(cg).wf(),
        ({
            let n = old(cg).state().regs as nat;
            let m = managed_in(old(cg).state(), value);
            let k = if m {
                ptr_regs(value)
            } else {
                0
            };
            let first = if m {
                retain_bodies(value, n)
            } else {
                Seq::empty()
            };
            &&& emitted(*old(cg), *final(cg), first + word_bodies(value, n + k), k + word_regs(value))
            &&& m ==> declares(*old(cg), *final(cg), RETAIN_DECL@)
            &&& !m ==> same_externs(*old(cg), *final(cg))
            &&& r.operand@ == word_operand(value, n + k)
            &&& word_regs(value) > 0 ==> r.ty == LType::I64 && r.is_plain()
            &&& word_regs(value) == 0 ==> r == value
        }),
{
    let ghost c0 = *cg;
    escape_retain(cg, &value);
    let ghost c1 = *cg;
    proof {
        if !managed_in(c0.state(), value) {
            lemma_emitted_none(c0);
        }
    }
    let r = box_to_i64(cg, value);
    proof {
        let n = c0.state().regs as nat;
        let m = managed_in(c0.state(), value);
        let k = if m {
            ptr_regs(value)
        } else {
            0
        };
        let first = if m {
            retain_bodies(value, n)
        } else {
            Seq::empty()
        };
        lemma_emitted_trans(c0, c1, *cg, first, k, word_bodies(value, n + k), word_regs(value));
    }
    r
}

} // verus!
