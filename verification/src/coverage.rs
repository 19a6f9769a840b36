//! Line coverage: which source lines are coverable — every function
//! definition and every statement with a recorded position, found through
//! nested blocks, lambdas, match and handler arms, call arguments, and module
//! and namespace bodies — and the counter global each one bumps.

use crate::ast::{Expr, HandlerArm, MatchArm, Position, Program, Stmt};
use crate::llty::{join, joined, texts};
use crate::text::{decimal, owned, push_decimal};
use vstd::string::StringExecFns;
use std::collections::BTreeSet;
use vstd::prelude::*;
use vstd::laws_cmp::obeys_cmp;
use vstd::std_specs::btree::{increasing_seq, spec_btree_keys_iter};
use vstd::std_specs::cmp::OrdSpec;
use vstd::std_specs::iter::IteratorSpec;

verus! {

broadcast use vstd::laws_cmp::group_laws_cmp;

/// The line a position marks, at least 1.
pub open spec fn line_mark(position: Option<Position>) -> Set<u32> {
    match position {
        Some(p) => set![if p.line >= 1 { p.line } else { 1 }],
        None => Set::empty(),
    }
}

/// The coverable lines of a statement.
pub open spec fn stmt_lines(s: Stmt) -> Set<u32>
    decreases s,
{
    match s {
        Stmt::Function { body, position, .. } => line_mark(position) + expr_lines(body),
        Stmt::Let { value, position, .. } => line_mark(position) + expr_lines(value),
        Stmt::Assignment { value, position, .. } => line_mark(position) + expr_lines(value),
        Stmt::Expr { value, position } => line_mark(position) + expr_lines(value),
        Stmt::Namespace { body, .. } => stmts_lines(body@),
        Stmt::Module { body, .. } => stmts_lines(body@),
        Stmt::Other => Set::empty(),
    }
}

/// The coverable lines of a list of statements.
pub open spec fn stmts_lines(ss: Seq<Stmt>) -> Set<u32>
    decreases ss,
{
    if ss.len() == 0 {
        Set::empty()
    } else {
        stmt_lines(ss[0]) + stmts_lines(ss.drop_first())
    }
}

/// The coverable lines nested in an expression: only the forms that carry
/// statements or arm bodies are entered.
pub open spec fn expr_lines(e: Expr) -> Set<u32>
    decreases e,
{
    match e {
        Expr::Block { statements, value } => stmts_lines(statements@) + match value {
            Some(v) => expr_lines(*v),
            None => Set::empty(),
        },
        Expr::Lambda { body, .. } => expr_lines(*body),
        Expr::Match { value, arms } => expr_lines(*value) + arms_lines(arms@),
        Expr::Handler { arms, body, .. } => handlers_lines(arms@) + expr_lines(*body),
        Expr::Call { function, arguments, .. } => expr_lines(*function) + exprs_lines(arguments@),
        _ => Set::empty(),
    }
}

/// The coverable lines of a list of expressions.
pub open spec fn exprs_lines(xs: Seq<Expr>) -> Set<u32>
    decreases xs,
{
    if xs.len() == 0 {
        Set::empty()
    } else {
        expr_lines(xs[0]) + exprs_lines(xs.drop_first())
    }
}

/// The coverable lines of the bodies of match arms.
pub open spec fn arms_lines(arms: Seq<MatchArm>) -> Set<u32>
    decreases arms,
{
    if arms.len() == 0 {
        Set::empty()
    } else {
        expr_lines(arms[0].body) + arms_lines(arms.drop_first())
    }
}

/// The coverable lines of the bodies of handler arms.
pub open spec fn handlers_lines(hs: Seq<HandlerArm>) -> Set<u32>
    decreases hs,
{
    if hs.len() == 0 {
        Set::empty()
    } else {
        expr_lines(hs[0].body) + handlers_lines(hs.drop_first())
    }
}

/// All coverable lines of `program`.
pub fn coverable_lines(program: &Program) -> (r: BTreeSet<u32>)
    ensures
        r@ == stmts_lines(program.statements@),
{
    let mut lines: BTreeSet<u32> = BTreeSet::new();
    collect_stmts(program.statements.as_slice(), &mut lines);
    assert(lines@ =~= stmts_lines(program.statements@));
    lines
}

/// Record the line `position` marks.
fn mark(position: Option<Position>, lines: &mut BTreeSet<u32>)
    ensures
        final(lines)@ == old(lines)@ + line_mark(position),
{
    match position {
        Some(p) => {
            let line: u32 = if p.line >= 1 {
                p.line
            } else {
                1
            };
            let _ = lines.insert(line);
        },
        None => {},
    }
    assert(final(lines)@ =~= old(lines)@ + line_mark(position));
}

/// Record the coverable lines of each statement of a list.
fn collect_stmts(stmts: &[Stmt], lines: &mut BTreeSet<u32>)
    ensures
        final(lines)@ == old(lines)@ + stmts_lines(stmts@),
    decreases stmts@, 0nat,
{
    let ghost l0 = lines@;
    let mut i: usize = 0;
    assert(stmts@.skip(0) =~= stmts@);
    while i < stmts.len()
        invariant
            i <= stmts@.len(),
            lines@ + stmts_lines(stmts@.skip(i as int)) == l0 + stmts_lines(stmts@),
        decreases stmts@.len() - i,
    {
        proof {
            assert(stmts@.skip(i as int)[0] == stmts@[i as int]);
            assert(stmts@.skip(i as int).drop_first() =~= stmts@.skip(i + 1));
        }
        collect_stmt(&stmts[i], lines);
        proof {
            assert(lines@ + stmts_lines(stmts@.skip(i + 1)) =~= l0 + stmts_lines(stmts@));
        }
        i = i + 1;
    }
    assert(stmts_lines(stmts@.skip(i as int)) =~= Set::<u32>::empty());
    assert(lines@ =~= l0 + stmts_lines(stmts@));
}

/// Record the coverable lines of a statement.
fn collect_stmt(stmt: &Stmt, lines: &mut BTreeSet<u32>)
    ensures
        final(lines)@ == old(lines)@ + stmt_lines(*stmt),
    decreases *stmt, 0nat,
{
    let ghost l0 = lines@;
    match stmt {
        Stmt::Function { body, position, .. } => {
            mark(*position, lines);
            collect_expr(body, lines);
        },
        Stmt::Let { value, position, .. } => {
            mark(*position, lines);
            collect_expr(value, lines);
        },
        Stmt::Assignment { value, position, .. } => {
            mark(*position, lines);
            collect_expr(value, lines);
        },
        Stmt::Expr { value, position } => {
            mark(*position, lines);
            collect_expr(value, lines);
        },
        Stmt::Namespace { body, .. } => collect_stmts(body.as_slice(), lines),
        Stmt::Module { body, .. } => collect_stmts(body.as_slice(), lines),
        Stmt::Other => {},
    }
    assert(lines@ =~= l0 + stmt_lines(*stmt));
}

/// Record the coverable lines nested in an expression.
fn collect_expr(expr: &Expr, lines: &mut BTreeSet<u32>)
    ensures
        final(lines)@ == old(lines)@ + expr_lines(*expr),
    decreases *expr, 1nat,
{
    let ghost l0 = lines@;
    match expr {
        Expr::Block { statements, value } => {
            collect_stmts(statements.as_slice(), lines);
            match value {
                Some(v) => collect_expr(v, lines),
                None => {},
            }
        },
        Expr::Lambda { body, .. } => collect_expr(body, lines),
        Expr::Match { value, arms } => {
            collect_expr(value, lines);
            collect_arms(arms.as_slice(), lines);
        },
        Expr::Handler { arms, body, .. } => {
            collect_handlers(arms.as_slice(), lines);
            collect_expr(body, lines);
        },
        Expr::Call { function, arguments, .. } => {
            collect_expr(function, lines);
            collect_exprs(arguments.as_slice(), lines);
        },
        _ => {},
    }
    assert(lines@ =~= l0 + expr_lines(*expr));
}

/// Record the coverable lines of each expression of a list.
fn collect_exprs(xs: &[Expr], lines: &mut BTreeSet<u32>)
    ensures
        final(lines)@ == old(lines)@ + exprs_lines(xs@),
    decreases xs@, 0nat,
{
    let ghost l0 = lines@;
    let mut i: usize = 0;
    assert(xs@.skip(0) =~= xs@);
    while i < xs.len()
        invariant
            i <= xs@.len(),
            lines@ + exprs_lines(xs@.skip(i as int)) == l0 + exprs_lines(xs@),
        decreases xs@.len() - i,
    {
        proof {
            assert(xs@.skip(i as int)[0] == xs@[i as int]);
            assert(xs@.skip(i as int).drop_first() =~= xs@.skip(i + 1));
        }
        collect_expr(&xs[i], lines);
        proof {
            assert(lines@ + exprs_lines(xs@.skip(i + 1)) =~= l0 + exprs_lines(xs@));
        }
        i = i + 1;
    }
    assert(exprs_lines(xs@.skip(i as int)) =~= Set::<u32>::empty());
    assert(lines@ =~= l0 + exprs_lines(xs@));
}

/// Record the coverable lines of each match arm body.
fn collect_arms(xs: &[MatchArm], lines: &mut BTreeSet<u32>)
    ensures
        final(lines)@ == old(lines)@ + arms_lines(xs@),
    decreases xs@, 0nat,
{
    let ghost l0 = lines@;
    let mut i: usize = 0;
    assert(xs@.skip(0) =~= xs@);
    while i < xs.len()
        invariant
            i <= xs@.len(),
            lines@ + arms_lines(xs@.skip(i as int)) == l0 + arms_lines(xs@),
        decreases xs@.len() - i,
    {
        proof {
            assert(xs@.skip(i as int)[0] == xs@[i as int]);
            assert(xs@.skip(i as int).drop_first() =~= xs@.skip(i + 1));
        }
        collect_expr(&xs[i].body, lines);
        proof {
            assert(lines@ + arms_lines(xs@.skip(i + 1)) =~= l0 + arms_lines(xs@));
        }
        i = i + 1;
    }
    assert(arms_lines(xs@.skip(i as int)) =~= Set::<u32>::empty());
    assert(lines@ =~= l0 + arms_lines(xs@));
}

/// Record the coverable lines of each handler arm body.
fn collect_handlers(xs: &[HandlerArm], lines: &mut BTreeSet<u32>)
    ensures
        final(lines)@ == old(lines)@ + handlers_lines(xs@),
    decreases xs@, 0nat,
{
    let ghost l0 = lines@;
    let mut i: usize = 0;
    assert(xs@.skip(0) =~= xs@);
    while i < xs.len()
        invariant
            i <= xs@.len(),
            lines@ + handlers_lines(xs@.skip(i as int)) == l0 + handlers_lines(xs@),
        decreases xs@.len() - i,
    {
        proof {
            assert(xs@.skip(i as int)[0] == xs@[i as int]);
            assert(xs@.skip(i as int).drop_first() =~= xs@.skip(i + 1));
        }
        collect_expr(&xs[i].body, lines);
        proof {
            assert(lines@ + handlers_lines(xs@.skip(i + 1)) =~= l0 + handlers_lines(xs@));
        }
        i = i + 1;
    }
    assert(handlers_lines(xs@.skip(i as int)) =~= Set::<u32>::empty());
    assert(lines@ =~= l0 + handlers_lines(xs@));
}

/// Each statement of a list contributes its lines.
proof fn lemma_stmt_lines_each(ss: Seq<Stmt>, i: int)
    requires
        0 <= i < ss.len(),
    ensures
        stmt_lines(ss[i]).subset_of(stmts_lines(ss)),
    decreases ss.len(),
{
    if i > 0 {
        lemma_stmt_lines_each(ss.drop_first(), i - 1);
        assert(ss.drop_first()[i - 1] == ss[i]);
    }
}

/// Each expression of a list contributes its lines.
proof fn lemma_expr_lines_each(xs: Seq<Expr>, i: int)
    requires
        0 <= i < xs.len(),
    ensures
        expr_lines(xs[i]).subset_of(exprs_lines(xs)),
    decreases xs.len(),
{
    if i > 0 {
        lemma_expr_lines_each(xs.drop_first(), i - 1);
        assert(xs.drop_first()[i - 1] == xs[i]);
    }
}

/// Each match arm body contributes its lines.
proof fn lemma_arm_lines_each(arms: Seq<MatchArm>, i: int)
    requires
        0 <= i < arms.len(),
    ensures
        expr_lines(arms[i].body).subset_of(arms_lines(arms)),
    decreases arms.len(),
{
    if i > 0 {
        lemma_arm_lines_each(arms.drop_first(), i - 1);
        assert(arms.drop_first()[i - 1] == arms[i]);
    }
}

/// Each handler arm body contributes its lines.
proof fn lemma_handler_lines_each(hs: Seq<HandlerArm>, i: int)
    requires
        0 <= i < hs.len(),
    ensures
        expr_lines(hs[i].body).subset_of(handlers_lines(hs)),
    decreases hs.len(),
{
    if i > 0 {
        lemma_handler_lines_each(hs.drop_first(), i - 1);
        assert(hs.drop_first()[i - 1] == hs[i]);
    }
}

/// Every statement of a program is entered: its lines are among the
/// program's coverable lines.
pub proof fn law_every_statement_entered(ss: Seq<Stmt>, i: int)
    requires
        0 <= i < ss.len(),
    ensures
        stmt_lines(ss[i]).subset_of(stmts_lines(ss)),
{
    lemma_stmt_lines_each(ss, i);
}

/// A positioned function definition or statement marks its own line (at
/// least 1), and what it holds is entered.
pub proof fn law_positioned_statement_marks_its_line(s: Stmt)
    ensures
        s is Function && s->Function_position is Some ==> stmt_lines(s).contains(
            if s->Function_position->0.line >= 1 {
                s->Function_position->0.line
            } else {
                1u32
            },
        ),
        s is Let && s->Let_position is Some ==> stmt_lines(s).contains(
            if s->Let_position->0.line >= 1 {
                s->Let_position->0.line
            } else {
                1u32
            },
        ),
        s is Assignment && s->Assignment_position is Some ==> stmt_lines(s).contains(
            if s->Assignment_position->0.line >= 1 {
                s->Assignment_position->0.line
            } else {
                1u32
            },
        ),
        s is Expr && s->Expr_position is Some ==> stmt_lines(s).contains(
            if s->Expr_position->0.line >= 1 {
                s->Expr_position->0.line
            } else {
                1u32
            },
        ),
        s is Function ==> expr_lines(s->Function_body).subset_of(stmt_lines(s)),
        s is Let ==> expr_lines(s->Let_value).subset_of(stmt_lines(s)),
        s is Assignment ==> expr_lines(s->Assignment_value).subset_of(stmt_lines(s)),
        s is Expr ==> expr_lines(s->Expr_value).subset_of(stmt_lines(s)),
        s is Module ==> stmts_lines(s->Module_body@) == stmt_lines(s),
        s is Namespace ==> stmts_lines(s->Namespace_body@) == stmt_lines(s),
{
}

/// Every arm of a match is entered, and so is the matched value.
pub proof fn law_every_match_arm_entered(e: Expr, i: int)
    requires
        e is Match,
        0 <= i < e->Match_arms@.len(),
    ensures
        expr_lines(e->Match_arms@[i].body).subset_of(expr_lines(e)),
        expr_lines(*e->Match_value).subset_of(expr_lines(e)),
{
    lemma_arm_lines_each(e->Match_arms@, i);
}

/// Every arm of a handler is entered, and so is the handled body.
pub proof fn law_every_handler_arm_entered(e: Expr, i: int)
    requires
        e is Handler,
        0 <= i < e->Handler_arms@.len(),
    ensures
        expr_lines(e->Handler_arms@[i].body).subset_of(expr_lines(e)),
        expr_lines(*e->Handler_body).subset_of(expr_lines(e)),
{
    lemma_handler_lines_each(e->Handler_arms@, i);
}

/// Every statement of a block is entered, and so is its value.
pub proof fn law_every_block_statement_entered(e: Expr, i: int)
    requires
        e is Block,
        0 <= i < e->Block_statements@.len(),
    ensures
        stmt_lines(e->Block_statements@[i]).subset_of(expr_lines(e)),
        e->Block_value is Some ==> expr_lines(*e->Block_value->0).subset_of(expr_lines(e)),
{
    lemma_stmt_lines_each(e->Block_statements@, i);
}

/// The callee and every argument of a call are entered.
pub proof fn law_every_call_argument_entered(e: Expr, i: int)
    requires
        e is Call,
        0 <= i < e->Call_arguments@.len(),
    ensures
        expr_lines(e->Call_arguments@[i]).subset_of(expr_lines(e)),
        expr_lines(*e->Call_function).subset_of(expr_lines(e)),
{
    lemma_expr_lines_each(e->Call_arguments@, i);
}

/// A positioned statement inside any arm of a match that is the body of a
/// top-level function is coverable: its line is among the program's
/// coverable lines, whichever arm holds it.
pub proof fn law_statement_in_any_match_arm_coverable(ss: Seq<Stmt>, f: int, i: int, t: int)
    requires
        0 <= f < ss.len(),
        ss[f] is Function,
        ss[f]->Function_body is Match,
        0 <= i < ss[f]->Function_body->Match_arms@.len(),
        ss[f]->Function_body->Match_arms@[i].body is Block,
        0 <= t < ss[f]->Function_body->Match_arms@[i].body->Block_statements@.len(),
    ensures
        stmt_lines(ss[f]->Function_body->Match_arms@[i].body->Block_statements@[t]).subset_of(
            stmts_lines(ss),
        ),
{
    let m = ss[f]->Function_body;
    let b = m->Match_arms@[i].body;
    law_every_block_statement_entered(b, t);
    law_every_match_arm_entered(m, i);
    law_positioned_statement_marks_its_line(ss[f]);
    law_every_statement_entered(ss, f);
}

/// The counter global for a source line.
pub fn counter_global(line: u32) -> (r: String)
    ensures
        r@ == "@__osp_cov_hits."@ + decimal(line as nat),
{
    let mut r = owned("@__osp_cov_hits.");
    push_decimal(&mut r, line as u64);
    r
}

/// `q` lists each line once, in ascending order.
pub open spec fn ascending(q: Seq<u32>) -> bool {
    forall|i: int, j: int| 0 <= i < j < q.len() ==> q[i] < q[j]
}

/// The lines of `s` in ascending order.
pub open spec fn sorted_lines(s: Set<u32>) -> Seq<u32> {
    choose|q: Seq<u32>| ascending(q) && q.to_set() == s
}

/// Two ascending listings of the same lines are the same listing.
pub proof fn lemma_ascending_unique(a: Seq<u32>, b: Seq<u32>)
    requires
        ascending(a),
        ascending(b),
        a.to_set() == b.to_set(),
    ensures
        a == b,
    decreases a.len(),
{
    if a.len() == 0 {
        if b.len() > 0 {
            assert(b.to_set().contains(b[0]));
        }
        assert(a =~= b);
    } else {
        assert(a.to_set().contains(a[0]));
        assert(b.len() > 0);
        assert(b.to_set().contains(b[0]));
        let k = choose|k: int| 0 <= k < b.len() && b[k] == a[0];
        let m = choose|m: int| 0 <= m < a.len() && a[m] == b[0];
        assert(a[0] == b[0]) by {
            if k > 0 {
                if m > 0 {
                    assert(a[0] < a[m]);
                }
                assert(b[0] < b[k]);
            }
        }
        let a1 = a.drop_first();
        let b1 = b.drop_first();
        assert forall|x: u32| a1.to_set().contains(x) <==> b1.to_set().contains(x) by {
            if a1.to_set().contains(x) {
                let i = choose|i: int| 0 <= i < a1.len() && a1[i] == x;
                assert(a[i + 1] == x);
                assert(a[0] < a[i + 1]);
                assert(a.to_set().contains(x));
                let j = choose|j: int| 0 <= j < b.len() && b[j] == x;
                assert(j != 0);
                assert(b1[j - 1] == x);
            }
            if b1.to_set().contains(x) {
                let i = choose|i: int| 0 <= i < b1.len() && b1[i] == x;
                assert(b[i + 1] == x);
                assert(b[0] < b[i + 1]);
                assert(b.to_set().contains(x));
                let j = choose|j: int| 0 <= j < a.len() && a[j] == x;
                assert(j != 0);
                assert(a1[j - 1] == x);
            }
        }
        assert(a1.to_set() =~= b1.to_set());
        lemma_ascending_unique(a1, b1);
        assert(a =~= b) by {
            assert forall|i: int| 0 <= i < a.len() implies a[i] == b[i] by {
                if i > 0 {
                    assert(a[i] == a1[i - 1]);
                    assert(b[i] == b1[i - 1]);
                }
            }
        }
    }
}

/// Walking a set of lines gives each once, in ascending order.
pub proof fn lemma_walk_ascending(s: &BTreeSet<u32>)
    ensures
        spec_btree_keys_iter(s).remaining().unref() == sorted_lines(s@),
        ascending(sorted_lines(s@)),
        sorted_lines(s@).to_set() == s@,
{
    broadcast use vstd::std_specs::btree::group_btree_axioms;
    broadcast use vstd::laws_cmp::group_laws_cmp;

    let q = spec_btree_keys_iter(s).remaining();
    assert(obeys_cmp::<&u32>());
    assert(increasing_seq(q));
    assert forall|i: int, j: int| 0 <= i < j < q.unref().len() implies q.unref()[i] < q.unref()[j] by {
        assert(OrdSpec::cmp_spec(&q[i], &q[j]) is Less);
    }
    assert(ascending(q.unref()));
    assert(q.unref().to_set() == s@);
    lemma_ascending_unique(q.unref(), sorted_lines(s@));
}

/// The registration call of one line's counter.
pub open spec fn register_call(line: u32) -> Seq<char> {
    "  call void @osp_cov_register_line(i64 "@ + decimal(line as nat) + ", i64* "@
        + "@__osp_cov_hits."@ + decimal(line as nat) + ")"@
}

/// The registration function: one call per line of `lines`, in order.
pub open spec fn init_text(lines: Seq<u32>) -> Seq<char> {
    "define internal void @__osp_cov_init() {\nentry:\n"@ + joined(
        lines.map_values(|l: u32| register_call(l)),
        "\n"@,
    ) + "\n  ret void\n}"@
}

/// Per-module coverage state: the coverable lines seen so far, and the
/// definition lines of functions specialised by inlining (which never pass
/// through function emission), newest last.
#[derive(Debug)]
pub struct CoverageState {
    lines: BTreeSet<u32>,
    inline_fn_lines: Vec<(String, Position)>,
}

/// The definition position recorded for `name`, the most recent first.
pub open spec fn inline_line_of(notes: Seq<(Seq<char>, Position)>, name: Seq<char>) -> Option<Position>
    decreases notes.len(),
{
    if notes.len() == 0 {
        None
    } else if notes.last().0 == name {
        Some(notes.last().1)
    } else {
        inline_line_of(notes.drop_last(), name)
    }
}

impl CoverageState {
    /// The coverable lines seen so far.
    pub closed spec fn lines(&self) -> Set<u32> {
        self.lines@
    }

    /// The recorded definition positions of inline-specialised functions.
    pub closed spec fn inline_fns(&self) -> Seq<(Seq<char>, Position)> {
        self.inline_fn_lines@.map_values(|e: (String, Position)| (e.0@, e.1))
    }

    /// No lines, no inline functions.
    pub fn new() -> (r: CoverageState)
        ensures
            r.lines() == Set::<u32>::empty(),
            r.inline_fns() == Seq::<(Seq<char>, Position)>::empty(),
    {
        let r = CoverageState { lines: BTreeSet::new(), inline_fn_lines: Vec::new() };
        assert(r.inline_fns() =~= Seq::<(Seq<char>, Position)>::empty());
        r
    }

    /// Add `line`, answering whether it was not there yet.
    pub fn insert_line(&mut self, line: u32) -> (first_sight: bool)
        ensures
            final(self).lines() == old(self).lines().insert(line),
            first_sight == !old(self).lines().contains(line),
            final(self).inline_fns() == old(self).inline_fns(),
    {
        proof {
            lemma_lines_ordered();
        }
        self.lines.insert(line)
    }

    /// Record the definition position of an inline-specialised function.
    pub fn note_inline_fn(&mut self, name: &str, position: Position)
        ensures
            final(self).lines() == old(self).lines(),
            final(self).inline_fns() == old(self).inline_fns().push((name@, position)),
    {
        self.inline_fn_lines.push((owned(name), position));
        assert(self.inline_fns() =~= old(self).inline_fns().push((name@, position)));
    }

    /// The definition position recorded for `name`, if any.
    pub fn inline_fn_line(&self, name: &str) -> (r: Option<Position>)
        ensures
            r == inline_line_of(self.inline_fns(), name@),
    {
        let ghost v = self.inline_fns();
        let mut k: usize = self.inline_fn_lines.len();
        assert(v.subrange(0, k as int) =~= v);
        while k > 0
            invariant
                k <= v.len(),
                v == self.inline_fns(),
                inline_line_of(v, name@) == inline_line_of(v.subrange(0, k as int), name@),
            decreases k,
        {
            assert(v.subrange(0, k as int).drop_last() =~= v.subrange(0, k - 1));
            assert(v.subrange(0, k as int).last() == v[k - 1]);
            if crate::text::str_eq(self.inline_fn_lines[k - 1].0.as_str(), name) {
                return Some(self.inline_fn_lines[k - 1].1);
            }
            k = k - 1;
        }
        None
    }

    /// The registration function `__osp_cov_init`: one
    /// `osp_cov_register_line(line, &counter)` call per coverable line, in
    /// ascending line order.
    pub fn render_init(&self) -> (r: String)
        ensures
            r@ == init_text(sorted_lines(self.lines())),
    {
        broadcast use vstd::std_specs::btree::group_btree_axioms;

        proof {
            lemma_walk_ascending(&self.lines);
        }
        let ghost q = spec_btree_keys_iter(&self.lines).remaining();
        let mut calls: Vec<String> = Vec::new();
        for line in it: self.lines.iter()
            invariant
                it.seq() == q,
                calls@.len() == it.index(),
                texts(calls@) == q.unref().take(it.index()).map_values(|l: u32| register_call(l)),
        {
            let mut call = owned("  call void @osp_cov_register_line(i64 ");
            push_decimal(&mut call, *line as u64);
            call.append(", i64* ");
            let global = counter_global(*line);
            call.append(global.as_str());
            call.append(")");
            assert(call@ =~= register_call(*line));
            assert(*line == q.unref()[it.index()]);
            let ghost c0 = calls@;
            let ghost cv = call@;
            calls.push(call);
            assert(texts(calls@) =~= texts(c0).push(cv));
            assert(q.unref().take(it.index() + 1) =~= q.unref().take(it.index()).push(
                q.unref()[it.index()],
            ));
            assert(texts(calls@) =~= q.unref().take(it.index() + 1).map_values(
                |l: u32| register_call(l),
            ));
        }
        assert(calls@.len() == q.len());
        assert(texts(calls@) =~= q.unref().map_values(|l: u32| register_call(l)));
        let mut r = owned("define internal void @__osp_cov_init() {\nentry:\n");
        let body = join(calls.as_slice(), "\n");
        r.append(body.as_str());
        r.append("\n  ret void\n}");
        r
    }
}

/// Line numbers are totally ordered.
proof fn lemma_lines_ordered()
    ensures
        obeys_cmp::<u32>(),
{
}

} // verus!
