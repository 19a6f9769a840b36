//! Scope-aware free-variable analysis over the program tree. The one collector
//! behind every capture mechanism — closure cells and `spawn` thunks — so
//! "what does this expression close over" has exactly one answer. Names bound
//! *inside* the expression (lambda parameters, `let`s in blocks, `match` /
//! `select` pattern bindings, handler-arm parameters) are subtracted;
//! everything else referenced is free.

use crate::ast::{Expr, FieldAssignment, HandlerArm, InterpolatedPart, MapEntry, MatchArm, NamedArgument, Parameter, Pattern, Stmt};
use crate::llty::texts;
use crate::names::NameSet;
use crate::text::{owned, str_eq};
use vstd::prelude::*;

verus! {

/// `name`, unless it is bound.
pub open spec fn noted(name: Seq<char>, bound: Seq<Seq<char>>) -> Set<Seq<char>> {
    if bound.contains(name) {
        Set::empty()
    } else {
        set![name]
    }
}

/// The names of a parameter list.
pub open spec fn param_names(ps: Seq<Parameter>) -> Seq<Seq<char>> {
    ps.map_values(|p: Parameter| p.name@)
}

/// Every name a pattern binds in its arm's scope.
pub open spec fn bindings(p: Pattern) -> Seq<Seq<char>>
    decreases p,
{
    match p {
        Pattern::Wildcard | Pattern::Literal(_) => Seq::empty(),
        Pattern::Constructor { fields, sub_patterns, .. } => texts(fields@) + bindings_all(
            sub_patterns@,
        ),
        Pattern::TypeAnnotated { name, .. } => seq![name@],
        Pattern::FieldNames { fields } => texts(fields@),
        Pattern::List { elements, rest } => bindings_all(elements@) + match rest {
            Some(r) => seq![r@],
            None => Seq::empty(),
        },
        Pattern::Binding(n) => seq![n@],
    }
}

/// The names a list of patterns binds, in order.
pub open spec fn bindings_all(ps: Seq<Pattern>) -> Seq<Seq<char>>
    decreases ps,
{
    if ps.len() == 0 {
        Seq::empty()
    } else {
        bindings(ps[0]) + bindings_all(ps.drop_first())
    }
}

/// The free names of `e` when the names in `bound` are bound.
pub open spec fn free(e: Expr, bound: Seq<Seq<char>>) -> Set<Seq<char>>
    decreases e,
{
    match e {
        Expr::Integer(_) | Expr::Float(_) | Expr::Str(_) | Expr::Bool(_) => Set::empty(),
        Expr::Identifier(n) => noted(n@, bound),
        Expr::Path(p) => noted(p@, bound),
        Expr::InterpolatedStr(parts) => free_parts(parts@, bound),
        Expr::List(xs) => free_exprs(xs@, bound),
        Expr::MapLit(entries) => free_entries(entries@, bound),
        Expr::Object(fields) => free_fields(fields@, bound),
        Expr::Binary { left, right, .. } => free(*left, bound) + free(*right, bound),
        Expr::Pipe { left, right } => free(*left, bound) + free(*right, bound),
        Expr::Unary { operand, .. } => free(*operand, bound),
        Expr::Call { function, arguments, named_arguments } => free(*function, bound)
            + free_exprs(arguments@, bound) + free_named(named_arguments@, bound),
        Expr::MethodCall { target, arguments, named_arguments, .. } => free(*target, bound)
            + free_exprs(arguments@, bound) + free_named(named_arguments@, bound),
        Expr::FieldAccess { target, .. } => free(*target, bound),
        Expr::Index { target, index } => free(*target, bound) + free(*index, bound),
        Expr::Lambda { parameters, body } => free(*body, bound + param_names(parameters@)),
        Expr::Match { value, arms } => free(*value, bound) + free_arms(arms@, bound),
        Expr::Block { statements, value } => free_stmts(statements@, bound) + match value {
            Some(v) => free(*v, bound + lets(statements@)),
            None => Set::empty(),
        },
        Expr::TypeConstructor { fields, .. } => free_fields(fields@, bound),
        Expr::Update { record, fields } => noted(record@, bound) + free_fields(fields@, bound),
        Expr::Spawn(inner) => free(*inner, bound),
        Expr::Await(inner) => free(*inner, bound),
        Expr::Recv(inner) => free(*inner, bound),
        Expr::Yield(v) => match v {
            Some(inner) => free(*inner, bound),
            None => Set::empty(),
        },
        Expr::Send { channel, value } => free(*channel, bound) + free(*value, bound),
        Expr::Select { arms } => free_arms(arms@, bound),
        Expr::Perform { arguments, named_arguments, .. } => free_exprs(arguments@, bound)
            + free_named(named_arguments@, bound),
        Expr::Resume(v) => match v {
            Some(inner) => free(*inner, bound),
            None => Set::empty(),
        },
        Expr::Handler { arms, body, .. } => free_handlers(arms@, bound) + free(*body, bound),
    }
}

/// The free names of a list of expressions.
pub open spec fn free_exprs(xs: Seq<Expr>, bound: Seq<Seq<char>>) -> Set<Seq<char>>
    decreases xs,
{
    if xs.len() == 0 {
        Set::empty()
    } else {
        free(xs[0], bound) + free_exprs(xs.drop_first(), bound)
    }
}

/// The free names of the values of named arguments.
pub open spec fn free_named(ns: Seq<NamedArgument>, bound: Seq<Seq<char>>) -> Set<Seq<char>>
    decreases ns,
{
    if ns.len() == 0 {
        Set::empty()
    } else {
        free(ns[0].value, bound) + free_named(ns.drop_first(), bound)
    }
}

/// The free names of the values of field assignments.
pub open spec fn free_fields(fs: Seq<FieldAssignment>, bound: Seq<Seq<char>>) -> Set<Seq<char>>
    decreases fs,
{
    if fs.len() == 0 {
        Set::empty()
    } else {
        free(fs[0].value, bound) + free_fields(fs.drop_first(), bound)
    }
}

/// The free names of the keys and values of map entries.
pub open spec fn free_entries(ms: Seq<MapEntry>, bound: Seq<Seq<char>>) -> Set<Seq<char>>
    decreases ms,
{
    if ms.len() == 0 {
        Set::empty()
    } else {
        free(ms[0].key, bound) + free(ms[0].value, bound) + free_entries(ms.drop_first(), bound)
    }
}

/// The free names of the `${…}` pieces of an interpolated string.
pub open spec fn free_parts(ps: Seq<InterpolatedPart>, bound: Seq<Seq<char>>) -> Set<Seq<char>>
    decreases ps,
{
    if ps.len() == 0 {
        Set::empty()
    } else {
        let head = match ps[0] {
            InterpolatedPart::Expr(inner) => free(inner, bound),
            InterpolatedPart::Text(_) => Set::empty(),
        };
        head + free_parts(ps.drop_first(), bound)
    }
}

/// The free names of match arms: each body with its pattern's bindings bound.
pub open spec fn free_arms(arms: Seq<MatchArm>, bound: Seq<Seq<char>>) -> Set<Seq<char>>
    decreases arms,
{
    if arms.len() == 0 {
        Set::empty()
    } else {
        free(arms[0].body, bound + bindings(arms[0].pattern)) + free_arms(arms.drop_first(), bound)
    }
}

/// The free names of handler arms: each body with its parameters bound.
pub open spec fn free_handlers(hs: Seq<HandlerArm>, bound: Seq<Seq<char>>) -> Set<Seq<char>>
    decreases hs,
{
    if hs.len() == 0 {
        Set::empty()
    } else {
        free(hs[0].body, bound + texts(hs[0].params@)) + free_handlers(hs.drop_first(), bound)
    }
}

/// The name a statement `let`-binds for the rest of its block.
pub open spec fn let_name(s: Stmt) -> Seq<Seq<char>> {
    match s {
        Stmt::Let { name, .. } => seq![name@],
        _ => Seq::empty(),
    }
}

/// The names the `let`s of a statement list bind, in order.
pub open spec fn lets(ss: Seq<Stmt>) -> Seq<Seq<char>>
    decreases ss.len(),
{
    if ss.len() == 0 {
        Seq::empty()
    } else {
        let_name(ss[0]) + lets(ss.drop_first())
    }
}

/// The free names of a block's statements: a `let` binds for the rest of the
/// block, assignments and expression statements are walked, other
/// declarations contribute nothing.
pub open spec fn free_stmts(ss: Seq<Stmt>, bound: Seq<Seq<char>>) -> Set<Seq<char>>
    decreases ss,
{
    if ss.len() == 0 {
        Set::empty()
    } else {
        let head = match ss[0] {
            Stmt::Let { value, .. } => free(value, bound),
            Stmt::Assignment { value, .. } => free(value, bound),
            Stmt::Expr { value, .. } => free(value, bound),
            _ => Set::empty(),
        };
        head + free_stmts(ss.drop_first(), bound + let_name(ss[0]))
    }
}

/// The names of `a + b` are those of `a` and those of `b`.
proof fn lemma_to_set_add(a: Seq<Seq<char>>, b: Seq<Seq<char>>)
    ensures
        (a + b).to_set() == a.to_set() + b.to_set(),
{
    assert forall|x: Seq<char>| (a + b).to_set().contains(x) <==> (a.to_set() + b.to_set()).contains(
        x,
    ) by {
        if (a + b).contains(x) {
            let k = choose|k: int| 0 <= k < (a + b).len() && (a + b)[k] == x;
            if k < a.len() {
                assert(a[k] == x);
            } else {
                assert(b[k - a.len()] == x);
            }
        }
        if a.contains(x) {
            let k = choose|k: int| 0 <= k < a.len() && a[k] == x;
            assert((a + b)[k] == x);
        }
        if b.contains(x) {
            let k = choose|k: int| 0 <= k < b.len() && b[k] == x;
            assert((a + b)[a.len() + k] == x);
        }
    }
    assert((a + b).to_set() =~= a.to_set() + b.to_set());
}

/// Binding more names before `extra` is binding them after it.
proof fn lemma_extend_bound(b: Seq<Seq<char>>, extra: Seq<Seq<char>>)
    ensures
        (b + extra).to_set() == b.to_set() + (Seq::<Seq<char>>::empty() + extra).to_set(),
{
    lemma_to_set_add(b, extra);
    assert(Seq::<Seq<char>>::empty() + extra =~= extra);
}

/// What an expression closes over under the names `bound` is what it
/// closes over on its own, less those names: a name bound outside is never
/// reported free, and every other free name is.
pub proof fn law_free_under_bound(e: Expr, bound: Seq<Seq<char>>)
    ensures
        free(e, bound) == free(e, Seq::empty()).difference(bound.to_set()),
    decreases e,
{
    let nb = Seq::<Seq<char>>::empty();
    let bs = bound.to_set();
    match e {
        Expr::Integer(_) | Expr::Float(_) | Expr::Str(_) | Expr::Bool(_) => {},
        Expr::Identifier(n) => {},
        Expr::Path(p) => {},
        Expr::InterpolatedStr(parts) => law_parts_under_bound(parts@, bound),
        Expr::List(xs) => law_exprs_under_bound(xs@, bound),
        Expr::MapLit(entries) => law_entries_under_bound(entries@, bound),
        Expr::Object(fields) => law_fields_under_bound(fields@, bound),
        Expr::Binary { left, right, .. } => {
            law_free_under_bound(*left, bound);
            law_free_under_bound(*right, bound);
        },
        Expr::Pipe { left, right } => {
            law_free_under_bound(*left, bound);
            law_free_under_bound(*right, bound);
        },
        Expr::Unary { operand, .. } => law_free_under_bound(*operand, bound),
        Expr::Call { function, arguments, named_arguments } => {
            law_free_under_bound(*function, bound);
            law_exprs_under_bound(arguments@, bound);
            law_named_under_bound(named_arguments@, bound);
        },
        Expr::MethodCall { target, arguments, named_arguments, .. } => {
            law_free_under_bound(*target, bound);
            law_exprs_under_bound(arguments@, bound);
            law_named_under_bound(named_arguments@, bound);
        },
        Expr::FieldAccess { target, .. } => law_free_under_bound(*target, bound),
        Expr::Index { target, index } => {
            law_free_under_bound(*target, bound);
            law_free_under_bound(*index, bound);
        },
        Expr::Lambda { parameters, body } => {
            let p = param_names(parameters@);
            law_free_under_bound(*body, bound + p);
            law_free_under_bound(*body, nb + p);
            lemma_extend_bound(bound, p);
        },
        Expr::Match { value, arms } => {
            law_free_under_bound(*value, bound);
            law_arms_under_bound(arms@, bound);
        },
        Expr::Block { statements, value } => {
            law_stmts_under_bound(statements@, bound);
            match value {
                Some(v) => {
                    let l = lets(statements@);
                    law_free_under_bound(*v, bound + l);
                    law_free_under_bound(*v, nb + l);
                    lemma_extend_bound(bound, l);
                },
                None => {},
            }
        },
        Expr::TypeConstructor { fields, .. } => law_fields_under_bound(fields@, bound),
        Expr::Update { record, fields } => law_fields_under_bound(fields@, bound),
        Expr::Spawn(inner) => law_free_under_bound(*inner, bound),
        Expr::Await(inner) => law_free_under_bound(*inner, bound),
        Expr::Recv(inner) => law_free_under_bound(*inner, bound),
        Expr::Yield(v) => match v {
            Some(inner) => law_free_under_bound(*inner, bound),
            None => {},
        },
        Expr::Send { channel, value } => {
            law_free_under_bound(*channel, bound);
            law_free_under_bound(*value, bound);
        },
        Expr::Select { arms } => law_arms_under_bound(arms@, bound),
        Expr::Perform { arguments, named_arguments, .. } => {
            law_exprs_under_bound(arguments@, bound);
            law_named_under_bound(named_arguments@, bound);
        },
        Expr::Resume(v) => match v {
            Some(inner) => law_free_under_bound(*inner, bound),
            None => {},
        },
        Expr::Handler { arms, body, .. } => {
            law_handlers_under_bound(arms@, bound);
            law_free_under_bound(*body, bound);
        },
    }
    assert(free(e, bound) =~= free(e, nb).difference(bs));
}

/// The same for a list of expressions.
pub proof fn law_exprs_under_bound(xs: Seq<Expr>, bound: Seq<Seq<char>>)
    ensures
        free_exprs(xs, bound) == free_exprs(xs, Seq::empty()).difference(bound.to_set()),
    decreases xs,
{
    if xs.len() > 0 {
        law_free_under_bound(xs[0], bound);
        law_exprs_under_bound(xs.drop_first(), bound);
        assert(free_exprs(xs, bound) =~= free_exprs(xs, Seq::empty()).difference(bound.to_set()));
    }
}

/// The same for named arguments.
pub proof fn law_named_under_bound(ns: Seq<NamedArgument>, bound: Seq<Seq<char>>)
    ensures
        free_named(ns, bound) == free_named(ns, Seq::empty()).difference(bound.to_set()),
    decreases ns,
{
    if ns.len() > 0 {
        law_free_under_bound(ns[0].value, bound);
        law_named_under_bound(ns.drop_first(), bound);
        assert(free_named(ns, bound) =~= free_named(ns, Seq::empty()).difference(bound.to_set()));
    }
}

/// The same for field assignments.
pub proof fn law_fields_under_bound(fs: Seq<FieldAssignment>, bound: Seq<Seq<char>>)
    ensures
        free_fields(fs, bound) == free_fields(fs, Seq::empty()).difference(bound.to_set()),
    decreases fs,
{
    if fs.len() > 0 {
        law_free_under_bound(fs[0].value, bound);
        law_fields_under_bound(fs.drop_first(), bound);
        assert(free_fields(fs, bound) =~= free_fields(fs, Seq::empty()).difference(bound.to_set()));
    }
}

/// The same for map entries.
pub proof fn law_entries_under_bound(ms: Seq<MapEntry>, bound: Seq<Seq<char>>)
    ensures
        free_entries(ms, bound) == free_entries(ms, Seq::empty()).difference(bound.to_set()),
    decreases ms,
{
    if ms.len() > 0 {
        law_free_under_bound(ms[0].key, bound);
        law_free_under_bound(ms[0].value, bound);
        law_entries_under_bound(ms.drop_first(), bound);
        assert(free_entries(ms, bound) =~= free_entries(ms, Seq::empty()).difference(
            bound.to_set(),
        ));
    }
}

/// The same for the pieces of an interpolated string.
pub proof fn law_parts_under_bound(ps: Seq<InterpolatedPart>, bound: Seq<Seq<char>>)
    ensures
        free_parts(ps, bound) == free_parts(ps, Seq::empty()).difference(bound.to_set()),
    decreases ps,
{
    if ps.len() > 0 {
        match ps[0] {
            InterpolatedPart::Expr(inner) => law_free_under_bound(inner, bound),
            InterpolatedPart::Text(_) => {},
        }
        law_parts_under_bound(ps.drop_first(), bound);
        assert(free_parts(ps, bound) =~= free_parts(ps, Seq::empty()).difference(bound.to_set()));
    }
}

/// The same for match arms.
pub proof fn law_arms_under_bound(arms: Seq<MatchArm>, bound: Seq<Seq<char>>)
    ensures
        free_arms(arms, bound) == free_arms(arms, Seq::empty()).difference(bound.to_set()),
    decreases arms,
{
    if arms.len() > 0 {
        let p = bindings(arms[0].pattern);
        law_free_under_bound(arms[0].body, bound + p);
        law_free_under_bound(arms[0].body, Seq::empty() + p);
        lemma_extend_bound(bound, p);
        law_arms_under_bound(arms.drop_first(), bound);
        assert(free_arms(arms, bound) =~= free_arms(arms, Seq::empty()).difference(bound.to_set()));
    }
}

/// The same for handler arms.
pub proof fn law_handlers_under_bound(hs: Seq<HandlerArm>, bound: Seq<Seq<char>>)
    ensures
        free_handlers(hs, bound) == free_handlers(hs, Seq::empty()).difference(bound.to_set()),
    decreases hs,
{
    if hs.len() > 0 {
        let p = texts(hs[0].params@);
        law_free_under_bound(hs[0].body, bound + p);
        law_free_under_bound(hs[0].body, Seq::empty() + p);
        lemma_extend_bound(bound, p);
        law_handlers_under_bound(hs.drop_first(), bound);
        assert(free_handlers(hs, bound) =~= free_handlers(hs, Seq::empty()).difference(
            bound.to_set(),
        ));
    }
}

/// The same for the statements of a block.
pub proof fn law_stmts_under_bound(ss: Seq<Stmt>, bound: Seq<Seq<char>>)
    ensures
        free_stmts(ss, bound) == free_stmts(ss, Seq::empty()).difference(bound.to_set()),
    decreases ss,
{
    if ss.len() > 0 {
        match ss[0] {
            Stmt::Let { value, .. } => law_free_under_bound(value, bound),
            Stmt::Assignment { value, .. } => law_free_under_bound(value, bound),
            Stmt::Expr { value, .. } => law_free_under_bound(value, bound),
            _ => {},
        }
        let l = let_name(ss[0]);
        law_stmts_under_bound(ss.drop_first(), bound + l);
        law_stmts_under_bound(ss.drop_first(), Seq::empty() + l);
        lemma_extend_bound(bound, l);
        assert(free_stmts(ss, bound) =~= free_stmts(ss, Seq::empty()).difference(bound.to_set()));
    }
}

/// A lambda never closes over its own parameters.
pub proof fn law_parameters_never_free(e: Expr, bound: Seq<Seq<char>>, name: Seq<char>)
    requires
        e is Lambda,
        param_names(e->Lambda_parameters@).contains(name),
    ensures
        !free(e, bound).contains(name),
{
    let p = param_names(e->Lambda_parameters@);
    law_free_under_bound(*e->Lambda_body, bound + p);
    lemma_to_set_add(bound, p);
}

/// A lambda closes over exactly what its body closes over, less its
/// parameters.
pub proof fn law_lambda_subtracts_parameters(e: Expr)
    requires
        e is Lambda,
    ensures
        free(e, Seq::empty()) == free(*e->Lambda_body, Seq::empty()).difference(
            param_names(e->Lambda_parameters@).to_set(),
        ),
{
    let p = param_names(e->Lambda_parameters@);
    law_free_under_bound(*e->Lambda_body, Seq::empty() + p);
    assert(Seq::<Seq<char>>::empty() + p =~= p);
}

/// A `let` at the head of a block scopes over the statements after it:
/// the block's statements close over what the bound value closes over and
/// what the later statements close over, less the `let`'s name.
pub proof fn law_let_scopes_later_statements(ss: Seq<Stmt>, bound: Seq<Seq<char>>)
    requires
        ss.len() > 0,
        ss[0] is Let,
    ensures
        free_stmts(ss, bound) == free(ss[0]->Let_value, bound) + free_stmts(ss.drop_first(), Seq::empty()).difference(
            bound.push(ss[0]->Let_name@).to_set(),
        ),
        !free_stmts(ss.drop_first(), bound + let_name(ss[0])).contains(ss[0]->Let_name@),
{
    let l = let_name(ss[0]);
    law_stmts_under_bound(ss.drop_first(), bound + l);
    assert(bound + l =~= bound.push(ss[0]->Let_name@));
    assert(bound.push(ss[0]->Let_name@).contains(ss[0]->Let_name@)) by {
        assert(bound.push(ss[0]->Let_name@)[bound.len() as int] == ss[0]->Let_name@);
    }
}

/// The subexpressions of `e` evaluated in the scope `e` itself is in: every
/// operand, callee, argument, scrutinee, target and element, but no lambda
/// body, arm body or block statement, which bind names of their own.
pub open spec fn open_parts(e: Expr) -> Seq<Expr> {
    match e {
        Expr::Binary { left, right, .. } => seq![*left, *right],
        Expr::Pipe { left, right } => seq![*left, *right],
        Expr::Unary { operand, .. } => seq![*operand],
        Expr::Call { function, arguments, .. } => seq![*function] + arguments@,
        Expr::MethodCall { target, arguments, .. } => seq![*target] + arguments@,
        Expr::FieldAccess { target, .. } => seq![*target],
        Expr::Index { target, index } => seq![*target, *index],
        Expr::Match { value, .. } => seq![*value],
        Expr::Handler { body, .. } => seq![*body],
        Expr::Spawn(inner) => seq![*inner],
        Expr::Await(inner) => seq![*inner],
        Expr::Recv(inner) => seq![*inner],
        Expr::Send { channel, value } => seq![*channel, *value],
        Expr::List(xs) => xs@,
        Expr::Perform { arguments, .. } => arguments@,
        _ => Seq::empty(),
    }
}

/// Each expression of a list closes over no more than the list.
proof fn lemma_free_exprs_each(xs: Seq<Expr>, bound: Seq<Seq<char>>, i: int)
    requires
        0 <= i < xs.len(),
    ensures
        free(xs[i], bound).subset_of(free_exprs(xs, bound)),
    decreases xs.len(),
{
    if i > 0 {
        lemma_free_exprs_each(xs.drop_first(), bound, i - 1);
        assert(xs.drop_first()[i - 1] == xs[i]);
    }
}

/// Each arm body, its pattern's bindings bound, closes over no more than the
/// arms.
proof fn lemma_free_arms_each(arms: Seq<MatchArm>, bound: Seq<Seq<char>>, i: int)
    requires
        0 <= i < arms.len(),
    ensures
        free(arms[i].body, bound + bindings(arms[i].pattern)).subset_of(free_arms(arms, bound)),
    decreases arms.len(),
{
    if i > 0 {
        lemma_free_arms_each(arms.drop_first(), bound, i - 1);
        assert(arms.drop_first()[i - 1] == arms[i]);
    }
}

/// A name used and not bound is free.
pub proof fn law_unbound_identifier_is_free(e: Expr, bound: Seq<Seq<char>>)
    requires
        e is Identifier,
    ensures
        !bound.contains(e->Identifier_0@) ==> free(e, bound) == set![e->Identifier_0@],
        bound.contains(e->Identifier_0@) ==> free(e, bound).is_empty(),
{
}

/// Whatever a subexpression evaluated in the same scope closes over, the
/// whole expression closes over: a name used outside every binder is free.
pub proof fn law_open_parts_are_free(e: Expr, bound: Seq<Seq<char>>, i: int)
    requires
        0 <= i < open_parts(e).len(),
    ensures
        free(open_parts(e)[i], bound).subset_of(free(e, bound)),
{
    match e {
        Expr::Call { function, arguments, .. } => {
            if i > 0 {
                lemma_free_exprs_each(arguments@, bound, i - 1);
                assert(open_parts(e)[i] == arguments@[i - 1]);
            }
        },
        Expr::MethodCall { target, arguments, .. } => {
            if i > 0 {
                lemma_free_exprs_each(arguments@, bound, i - 1);
                assert(open_parts(e)[i] == arguments@[i - 1]);
            }
        },
        Expr::List(xs) => lemma_free_exprs_each(xs@, bound, i),
        Expr::Perform { arguments, .. } => lemma_free_exprs_each(arguments@, bound, i),
        _ => {},
    }
}

/// A match closes over what its scrutinee closes over and what each arm body
/// closes over less the arm pattern's bindings.
pub proof fn law_match_free(e: Expr, bound: Seq<Seq<char>>, i: int)
    requires
        e is Match,
        0 <= i < e->Match_arms@.len(),
    ensures
        free(*e->Match_value, bound).subset_of(free(e, bound)),
        free(e->Match_arms@[i].body, bound + bindings(e->Match_arms@[i].pattern)).subset_of(free(e, bound)),
{
    lemma_free_arms_each(e->Match_arms@, bound, i);
}

/// `texts` distributes over concatenation.
proof fn lemma_texts_add(a: Seq<String>, b: Seq<String>)
    ensures
        texts(a + b) == texts(a) + texts(b),
{
    assert(texts(a + b) =~= texts(a) + texts(b));
}

/// Whether `name` is bound.
fn is_bound(bound: &Vec<String>, name: &str) -> (r: bool)
    ensures
        r == texts(bound@).contains(name@),
{
    let mut i: usize = 0;
    while i < bound.len()
        invariant
            i <= bound@.len(),
            forall|k: int| 0 <= k < i ==> bound@[k]@ != name@,
        decreases bound@.len() - i,
    {
        if str_eq(bound[i].as_str(), name) {
            assert(texts(bound@)[i as int] == name@);
            return true;
        }
        i = i + 1;
    }
    assert(!texts(bound@).contains(name@)) by {
        if texts(bound@).contains(name@) {
            let k = choose|k: int| 0 <= k < texts(bound@).len() && texts(bound@)[k] == name@;
            assert(bound@[k]@ == name@);
        }
    }
    false
}

/// Record `name` as free unless it is bound.
pub fn note(name: &str, bound: &Vec<String>, out: &mut NameSet)
    requires
        old(out).wf(),
    ensures
        final(out).wf(),
        final(out).set() == old(out).set() + noted(name@, texts(bound@)),
{
    if !is_bound(bound, name) {
        out.insert(name);
        assert(final(out).set() =~= old(out).set() + noted(name@, texts(bound@)));
    } else {
        assert(final(out).set() =~= old(out).set() + noted(name@, texts(bound@)));
    }
}

/// The names of a parameter list.
pub fn names_of(ps: &Vec<Parameter>) -> (r: Vec<String>)
    ensures
        texts(r@) == param_names(ps@),
{
    let mut r: Vec<String> = Vec::new();
    let mut i: usize = 0;
    while i < ps.len()
        invariant
            i <= ps@.len(),
            r@.len() == i,
            forall|k: int| 0 <= k < i ==> (#[trigger] r@[k])@ == ps@[k].name@,
        decreases ps@.len() - i,
    {
        r.push(ps[i].name.clone());
        i = i + 1;
    }
    assert(texts(r@) =~= param_names(ps@));
    r
}

/// A copy of a list of names.
pub fn copy_names(ns: &Vec<String>) -> (r: Vec<String>)
    ensures
        r@ == ns@,
{
    let mut r: Vec<String> = Vec::new();
    let mut i: usize = 0;
    while i < ns.len()
        invariant
            i <= ns@.len(),
            r@ =~= ns@.subrange(0, i as int),
        decreases ns@.len() - i,
    {
        r.push(ns[i].clone());
        i = i + 1;
        assert(r@ =~= ns@.subrange(0, i as int));
    }
    assert(r@ =~= ns@);
    r
}

/// Every name a pattern binds in its arm's scope.
pub fn pattern_bindings(p: &Pattern) -> (r: Vec<String>)
    ensures
        texts(r@) == bindings(*p),
    decreases p,
{
    match p {
        Pattern::Wildcard | Pattern::Literal(_) => {
            let r: Vec<String> = Vec::new();
            assert(texts(r@) =~= bindings(*p));
            r
        },
        Pattern::Constructor { fields, sub_patterns, .. } => {
            let mut names = copy_names(fields);
            let mut subs = bindings_of_all(sub_patterns.as_slice());
            proof {
                lemma_texts_add(names@, subs@);
            }
            names.append(&mut subs);
            names
        },
        Pattern::TypeAnnotated { name, .. } => {
            let mut r: Vec<String> = Vec::new();
            r.push(name.clone());
            assert(texts(r@) =~= bindings(*p));
            r
        },
        Pattern::FieldNames { fields } => copy_names(fields),
        Pattern::List { elements, rest } => {
            let mut names = bindings_of_all(elements.as_slice());
            let mut tail: Vec<String> = Vec::new();
            match rest {
                Some(r) => tail.push(r.clone()),
                None => {},
            }
            proof {
                lemma_texts_add(names@, tail@);
                assert(texts(tail@) =~= match rest {
                    Some(r) => seq![r@],
                    None => Seq::<Seq<char>>::empty(),
                });
            }
            names.append(&mut tail);
            names
        },
        Pattern::Binding(n) => {
            let mut r: Vec<String> = Vec::new();
            r.push(n.clone());
            assert(texts(r@) =~= bindings(*p));
            r
        },
    }
}

/// The names a list of patterns binds, in order.
fn bindings_of_all(ps: &[Pattern]) -> (r: Vec<String>)
    ensures
        texts(r@) == bindings_all(ps@),
    decreases ps@,
{
    let mut r: Vec<String> = Vec::new();
    let mut i: usize = 0;
    assert(ps@.skip(0) =~= ps@);
    while i < ps.len()
        invariant
            i <= ps@.len(),
            texts(r@) + bindings_all(ps@.skip(i as int)) == bindings_all(ps@),
        decreases ps@.len() - i,
    {
        proof {
            assert(ps@.skip(i as int)[0] == ps@[i as int]);
            assert(ps@.skip(i as int).drop_first() =~= ps@.skip(i + 1));
        }
        let mut more = pattern_bindings(&ps[i]);
        proof {
            lemma_texts_add(r@, more@);
        }
        r.append(&mut more);
        i = i + 1;
        proof {
            assert(bindings_all(ps@.skip(i as int)) == bindings_all(ps@.skip(i as int)));
            assert(texts(r@) + bindings_all(ps@.skip(i as int)) =~= bindings_all(ps@));
        }
    }
    assert(bindings_all(ps@.skip(i as int)) =~= Seq::<Seq<char>>::empty());
    assert(texts(r@) =~= bindings_all(ps@));
    r
}

/// Collect the free identifiers of `e` into `out` (sorted, deduplicated).
pub fn free_idents(e: &Expr, out: &mut NameSet)
    requires
        old(out).wf(),
    ensures
        final(out).wf(),
        final(out).set() == old(out).set() + free(*e, Seq::empty()),
{
    let mut bound: Vec<String> = Vec::new();
    assert(texts(bound@) =~= Seq::<Seq<char>>::empty());
    walk(e, &mut bound, out);
}

/// Walk `body` with `names` pushed onto the bound stack, restoring it after.
fn scoped(bound: &mut Vec<String>, names: Vec<String>, body: &Expr, out: &mut NameSet)
    requires
        old(out).wf(),
    ensures
        final(out).wf(),
        final(bound)@ == old(bound)@,
        final(out).set() == old(out).set() + free(*body, texts(old(bound)@) + texts(names@)),
    decreases *body, 1nat,
{
    let depth = bound.len();
    let ghost b0 = bound@;
    let mut names = names;
    proof {
        lemma_texts_add(bound@, names@);
    }
    bound.append(&mut names);
    walk(body, bound, out);
    bound.truncate(depth);
    assert(bound@ =~= b0);
}

/// Collect the free identifiers of `e`, given the names bound around it.
pub fn walk(e: &Expr, bound: &mut Vec<String>, out: &mut NameSet)
    requires
        old(out).wf(),
    ensures
        final(out).wf(),
        final(bound)@ == old(bound)@,
        final(out).set() == old(out).set() + free(*e, texts(old(bound)@)),
    decreases *e, 0nat,
{
    let ghost b0 = texts(bound@);
    let ghost out0 = out.set();
    match e {
        Expr::Integer(_) | Expr::Float(_) | Expr::Str(_) | Expr::Bool(_) => {
            assert(out.set() =~= out0 + free(*e, b0));
        },
        Expr::Identifier(n) => note(n.as_str(), bound, out),
        Expr::Path(p) => note(p.as_str(), bound, out),
        Expr::InterpolatedStr(parts) => walk_parts(parts.as_slice(), bound, out),
        Expr::List(xs) => walk_exprs(xs.as_slice(), bound, out),
        Expr::MapLit(entries) => walk_entries(entries.as_slice(), bound, out),
        Expr::Object(fields) => walk_fields(fields.as_slice(), bound, out),
        Expr::Binary { left, right, .. } => {
            walk(left, bound, out);
            walk(right, bound, out);
            assert(out.set() =~= out0 + free(*e, b0));
        },
        Expr::Pipe { left, right } => {
            walk(left, bound, out);
            walk(right, bound, out);
            assert(out.set() =~= out0 + free(*e, b0));
        },
        Expr::Unary { operand, .. } => walk(operand, bound, out),
        Expr::Call { function, arguments, named_arguments } => {
            walk(function, bound, out);
            walk_exprs(arguments.as_slice(), bound, out);
            walk_named(named_arguments.as_slice(), bound, out);
            assert(out.set() =~= out0 + free(*e, b0));
        },
        Expr::MethodCall { target, arguments, named_arguments, .. } => {
            walk(target, bound, out);
            walk_exprs(arguments.as_slice(), bound, out);
            walk_named(named_arguments.as_slice(), bound, out);
            assert(out.set() =~= out0 + free(*e, b0));
        },
        Expr::FieldAccess { target, .. } => walk(target, bound, out),
        Expr::Index { target, index } => {
            walk(target, bound, out);
            walk(index, bound, out);
            assert(out.set() =~= out0 + free(*e, b0));
        },
        Expr::Lambda { parameters, body } => {
            let names = names_of(parameters);
            scoped(bound, names, body, out);
        },
        Expr::Match { value, arms } => {
            walk(value, bound, out);
            walk_arms(arms.as_slice(), bound, out);
            assert(out.set() =~= out0 + free(*e, b0));
        },
        Expr::Block { statements, value } => {
            let ghost bv0 = bound@;
            let ghost ss = statements@;
            let depth = bound.len();
            let mut i: usize = 0;
            assert(ss.skip(0) =~= ss);
            assert(b0 + lets(ss) =~= texts(bound@) + lets(ss.skip(0)));
            while i < statements.len()
                invariant
                    *e is Block,
                    (*e)->Block_statements == *statements,
                    (*e)->Block_value == *value,
                    ss == statements@,
                    i <= ss.len(),
                    out.wf(),
                    depth == bv0.len(),
                    bound@.len() >= depth,
                    bound@.subrange(0, depth as int) == bv0,
                    b0 == texts(bv0),
                    b0 + lets(ss) == texts(bound@) + lets(ss.skip(i as int)),
                    out.set() + free_stmts(ss.skip(i as int), texts(bound@)) == out0 + free_stmts(
                        ss,
                        b0,
                    ),
                decreases ss.len() - i,
            {
                let ghost bb = texts(bound@);
                let ghost before = out.set();
                proof {
                    assert(ss.skip(i as int)[0] == ss[i as int]);
                    assert(ss.skip(i as int).drop_first() =~= ss.skip(i + 1));
                }
                match &statements[i] {
                    Stmt::Let { name, value, .. } => {
                        proof {
                            assert(decreases_to!(statements@ => statements@[i as int]));
                        }
                        walk(value, bound, out);
                        let ghost bprev = bound@;
                        bound.push(name.clone());
                        proof {
                            assert(texts(bound@) =~= bb + let_name(ss[i as int]));
                            assert(bound@.subrange(0, depth as int) =~= bprev.subrange(
                                0,
                                depth as int,
                            ));
                        }
                    },
                    Stmt::Assignment { value, .. } => {
                        proof {
                            assert(decreases_to!(statements@ => statements@[i as int]));
                        }
                        walk(value, bound, out);
                        assert(texts(bound@) =~= bb + let_name(ss[i as int]));
                    },
                    Stmt::Expr { value, .. } => {
                        proof {
                            assert(decreases_to!(statements@ => statements@[i as int]));
                        }
                        walk(value, bound, out);
                        assert(texts(bound@) =~= bb + let_name(ss[i as int]));
                    },
                    _ => {
                        assert(texts(bound@) =~= bb + let_name(ss[i as int]));
                    },
                }
                proof {
                    assert(out.set() + free_stmts(ss.skip(i + 1), texts(bound@)) =~= out0
                        + free_stmts(ss, b0));
                    assert(b0 + lets(ss) =~= texts(bound@) + lets(ss.skip(i + 1)));
                }
                i = i + 1;
            }
            proof {
                assert(ss.skip(i as int) =~= Seq::<Stmt>::empty());
                assert(free_stmts(ss.skip(i as int), texts(bound@)) =~= Set::<Seq<char>>::empty());
                assert(out.set() =~= out0 + free_stmts(ss, b0));
                assert(lets(ss.skip(i as int)) =~= Seq::<Seq<char>>::empty());
                assert(texts(bound@) =~= b0 + lets(ss));
            }
            let ghost mid = out.set();
            match value {
                Some(v) => walk(v, bound, out),
                None => {},
            }
            bound.truncate(depth);
            proof {
                assert(bound@ =~= bv0);
                assert(out.set() =~= out0 + free(*e, b0));
            }
        },
        Expr::TypeConstructor { fields, .. } => walk_fields(fields.as_slice(), bound, out),
        Expr::Update { record, fields } => {
            note(record.as_str(), bound, out);
            walk_fields(fields.as_slice(), bound, out);
            assert(out.set() =~= out0 + free(*e, b0));
        },
        Expr::Spawn(inner) => walk(inner, bound, out),
        Expr::Await(inner) => walk(inner, bound, out),
        Expr::Recv(inner) => walk(inner, bound, out),
        Expr::Yield(v) => match v {
            Some(inner) => walk(inner, bound, out),
            None => {
                assert(out.set() =~= out0 + free(*e, b0));
            },
        },
        Expr::Send { channel, value } => {
            walk(channel, bound, out);
            walk(value, bound, out);
            assert(out.set() =~= out0 + free(*e, b0));
        },
        Expr::Select { arms } => walk_arms(arms.as_slice(), bound, out),
        Expr::Perform { arguments, named_arguments, .. } => {
            walk_exprs(arguments.as_slice(), bound, out);
            walk_named(named_arguments.as_slice(), bound, out);
            assert(out.set() =~= out0 + free(*e, b0));
        },
        Expr::Resume(v) => match v {
            Some(inner) => walk(inner, bound, out),
            None => {
                assert(out.set() =~= out0 + free(*e, b0));
            },
        },
        Expr::Handler { arms, body, .. } => {
            walk_handlers(arms.as_slice(), bound, out);
            walk(body, bound, out);
            assert(out.set() =~= out0 + free(*e, b0));
        },
    }
}

/// Walk each expression of a list.
fn walk_exprs(xs: &[Expr], bound: &mut Vec<String>, out: &mut NameSet)
    requires
        old(out).wf(),
    ensures
        final(out).wf(),
        final(bound)@ == old(bound)@,
        final(out).set() == old(out).set() + free_exprs(xs@, texts(old(bound)@)),
    decreases xs@, 0nat,
{
    let ghost bv0 = bound@;
    let ghost b0 = texts(bound@);
    let ghost out0 = out.set();
    let mut i: usize = 0;
    assert(xs@.skip(0) =~= xs@);
    while i < xs.len()
        invariant
            i <= xs@.len(),
            out.wf(),
            bound@ == bv0,
            b0 == texts(bv0),
            out.set() + free_exprs(xs@.skip(i as int), b0) == out0 + free_exprs(xs@, b0),
        decreases xs@.len() - i,
    {
        let ghost before = out.set();
        proof {
            assert(xs@.skip(i as int)[0] == xs@[i as int]);
            assert(xs@.skip(i as int).drop_first() =~= xs@.skip(i + 1));
        }
        let x = &xs[i];
        walk(x, bound, out);
        proof {
            assert(out.set() + free_exprs(xs@.skip(i + 1), b0) =~= out0 + free_exprs(xs@, b0));
        }
        i = i + 1;
    }
    assert(free_exprs(xs@.skip(i as int), b0) =~= Set::<Seq<char>>::empty());
    assert(out.set() =~= out0 + free_exprs(xs@, b0));
}

/// Walk the value of each named argument.
fn walk_named(xs: &[NamedArgument], bound: &mut Vec<String>, out: &mut NameSet)
    requires
        old(out).wf(),
    ensures
        final(out).wf(),
        final(bound)@ == old(bound)@,
        final(out).set() == old(out).set() + free_named(xs@, texts(old(bound)@)),
    decreases xs@, 0nat,
{
    let ghost bv0 = bound@;
    let ghost b0 = texts(bound@);
    let ghost out0 = out.set();
    let mut i: usize = 0;
    assert(xs@.skip(0) =~= xs@);
    while i < xs.len()
        invariant
            i <= xs@.len(),
            out.wf(),
            bound@ == bv0,
            b0 == texts(bv0),
            out.set() + free_named(xs@.skip(i as int), b0) == out0 + free_named(xs@, b0),
        decreases xs@.len() - i,
    {
        let ghost before = out.set();
        proof {
            assert(xs@.skip(i as int)[0] == xs@[i as int]);
            assert(xs@.skip(i as int).drop_first() =~= xs@.skip(i + 1));
        }
        let x = &xs[i];
        walk(&x.value, bound, out);
        proof {
            assert(out.set() + free_named(xs@.skip(i + 1), b0) =~= out0 + free_named(xs@, b0));
        }
        i = i + 1;
    }
    assert(free_named(xs@.skip(i as int), b0) =~= Set::<Seq<char>>::empty());
    assert(out.set() =~= out0 + free_named(xs@, b0));
}

/// Walk the value of each field assignment.
fn walk_fields(xs: &[FieldAssignment], bound: &mut Vec<String>, out: &mut NameSet)
    requires
        old(out).wf(),
    ensures
        final(out).wf(),
        final(bound)@ == old(bound)@,
        final(out).set() == old(out).set() + free_fields(xs@, texts(old(bound)@)),
    decreases xs@, 0nat,
{
    let ghost bv0 = bound@;
    let ghost b0 = texts(bound@);
    let ghost out0 = out.set();
    let mut i: usize = 0;
    assert(xs@.skip(0) =~= xs@);
    while i < xs.len()
        invariant
            i <= xs@.len(),
            out.wf(),
            bound@ == bv0,
            b0 == texts(bv0),
            out.set() + free_fields(xs@.skip(i as int), b0) == out0 + free_fields(xs@, b0),
        decreases xs@.len() - i,
    {
        let ghost before = out.set();
        proof {
            assert(xs@.skip(i as int)[0] == xs@[i as int]);
            assert(xs@.skip(i as int).drop_first() =~= xs@.skip(i + 1));
        }
        let x = &xs[i];
        walk(&x.value, bound, out);
        proof {
            assert(out.set() + free_fields(xs@.skip(i + 1), b0) =~= out0 + free_fields(xs@, b0));
        }
        i = i + 1;
    }
    assert(free_fields(xs@.skip(i as int), b0) =~= Set::<Seq<char>>::empty());
    assert(out.set() =~= out0 + free_fields(xs@, b0));
}

/// Walk the key and value of each map entry.
fn walk_entries(xs: &[MapEntry], bound: &mut Vec<String>, out: &mut NameSet)
    requires
        old(out).wf(),
    ensures
        final(out).wf(),
        final(bound)@ == old(bound)@,
        final(out).set() == old(out).set() + free_entries(xs@, texts(old(bound)@)),
    decreases xs@, 0nat,
{
    let ghost bv0 = bound@;
    let ghost b0 = texts(bound@);
    let ghost out0 = out.set();
    let mut i: usize = 0;
    assert(xs@.skip(0) =~= xs@);
    while i < xs.len()
        invariant
            i <= xs@.len(),
            out.wf(),
            bound@ == bv0,
            b0 == texts(bv0),
            out.set() + free_entries(xs@.skip(i as int), b0) == out0 + free_entries(xs@, b0),
        decreases xs@.len() - i,
    {
        let ghost before = out.set();
        proof {
            assert(xs@.skip(i as int)[0] == xs@[i as int]);
            assert(xs@.skip(i as int).drop_first() =~= xs@.skip(i + 1));
        }
        let x = &xs[i];
        walk(&x.key, bound, out);
        walk(&x.value, bound, out);
        proof {
            assert(out.set() + free_entries(xs@.skip(i + 1), b0) =~= out0 + free_entries(xs@, b0));
        }
        i = i + 1;
    }
    assert(free_entries(xs@.skip(i as int), b0) =~= Set::<Seq<char>>::empty());
    assert(out.set() =~= out0 + free_entries(xs@, b0));
}

/// Walk the `${…}` pieces of an interpolated string.
fn walk_parts(xs: &[InterpolatedPart], bound: &mut Vec<String>, out: &mut NameSet)
    requires
        old(out).wf(),
    ensures
        final(out).wf(),
        final(bound)@ == old(bound)@,
        final(out).set() == old(out).set() + free_parts(xs@, texts(old(bound)@)),
    decreases xs@, 0nat,
{
    let ghost bv0 = bound@;
    let ghost b0 = texts(bound@);
    let ghost out0 = out.set();
    let mut i: usize = 0;
    assert(xs@.skip(0) =~= xs@);
    while i < xs.len()
        invariant
            i <= xs@.len(),
            out.wf(),
            bound@ == bv0,
            b0 == texts(bv0),
            out.set() + free_parts(xs@.skip(i as int), b0) == out0 + free_parts(xs@, b0),
        decreases xs@.len() - i,
    {
        let ghost before = out.set();
        proof {
            assert(xs@.skip(i as int)[0] == xs@[i as int]);
            assert(xs@.skip(i as int).drop_first() =~= xs@.skip(i + 1));
        }
        let x = &xs[i];
        match x {
            InterpolatedPart::Expr(inner) => walk(inner, bound, out),
            InterpolatedPart::Text(_) => {},
        }
        proof {
            assert(out.set() + free_parts(xs@.skip(i + 1), b0) =~= out0 + free_parts(xs@, b0));
        }
        i = i + 1;
    }
    assert(free_parts(xs@.skip(i as int), b0) =~= Set::<Seq<char>>::empty());
    assert(out.set() =~= out0 + free_parts(xs@, b0));
}

/// Walk each arm's body with its pattern's bindings bound.
fn walk_arms(xs: &[MatchArm], bound: &mut Vec<String>, out: &mut NameSet)
    requires
        old(out).wf(),
    ensures
        final(out).wf(),
        final(bound)@ == old(bound)@,
        final(out).set() == old(out).set() + free_arms(xs@, texts(old(bound)@)),
    decreases xs@, 0nat,
{
    let ghost bv0 = bound@;
    let ghost b0 = texts(bound@);
    let ghost out0 = out.set();
    let mut i: usize = 0;
    assert(xs@.skip(0) =~= xs@);
    while i < xs.len()
        invariant
            i <= xs@.len(),
            out.wf(),
            bound@ == bv0,
            b0 == texts(bv0),
            out.set() + free_arms(xs@.skip(i as int), b0) == out0 + free_arms(xs@, b0),
        decreases xs@.len() - i,
    {
        let ghost before = out.set();
        proof {
            assert(xs@.skip(i as int)[0] == xs@[i as int]);
            assert(xs@.skip(i as int).drop_first() =~= xs@.skip(i + 1));
        }
        let x = &xs[i];
        let names = pattern_bindings(&x.pattern);
        scoped(bound, names, &x.body, out);
        proof {
            assert(out.set() + free_arms(xs@.skip(i + 1), b0) =~= out0 + free_arms(xs@, b0));
        }
        i = i + 1;
    }
    assert(free_arms(xs@.skip(i as int), b0) =~= Set::<Seq<char>>::empty());
    assert(out.set() =~= out0 + free_arms(xs@, b0));
}

/// Walk each handler arm's body with its parameters bound.
fn walk_handlers(xs: &[HandlerArm], bound: &mut Vec<String>, out: &mut NameSet)
    requires
        old(out).wf(),
    ensures
        final(out).wf(),
        final(bound)@ == old(bound)@,
        final(out).set() == old(out).set() + free_handlers(xs@, texts(old(bound)@)),
    decreases xs@, 0nat,
{
    let ghost bv0 = bound@;
    let ghost b0 = texts(bound@);
    let ghost out0 = out.set();
    let mut i: usize = 0;
    assert(xs@.skip(0) =~= xs@);
    while i < xs.len()
        invariant
            i <= xs@.len(),
            out.wf(),
            bound@ == bv0,
            b0 == texts(bv0),
            out.set() + free_handlers(xs@.skip(i as int), b0) == out0 + free_handlers(xs@, b0),
        decreases xs@.len() - i,
    {
        let ghost before = out.set();
        proof {
            assert(xs@.skip(i as int)[0] == xs@[i as int]);
            assert(xs@.skip(i as int).drop_first() =~= xs@.skip(i + 1));
        }
        let x = &xs[i];
        let names = copy_names(&x.params);
        scoped(bound, names, &x.body, out);
        proof {
            assert(out.set() + free_handlers(xs@.skip(i + 1), b0) =~= out0 + free_handlers(xs@, b0));
        }
        i = i + 1;
    }
    assert(free_handlers(xs@.skip(i as int), b0) =~= Set::<Seq<char>>::empty());
    assert(out.set() =~= out0 + free_handlers(xs@, b0));
}

} // verus!
