//! Counted-loop scaffolding shared by the iterator and collection builtins:
//! an `i64` counter slot, a `cond` block testing it against a bound, the
//! body, and an increment block with the back edge. A list walk (by index
//! over a runtime handle) and a range walk (over a half-open `[start, end)`)
//! are the same counter frame underneath. Each `open_*` leaves the emitter in
//! the loop body; the matching `close_*` emits the increment and back edge.

use crate::builder::{
    emitted, instruction, label, lemma_located_concat, lemma_located_none, lemma_located_step, lemma_wf_debug,
    located_lines, located_n, location_after, register, Codegen, Emission,
};
use crate::call::{arg_texts, call_text, declaration};
use crate::debug_info::DebugState;
use crate::text::owned;
use vstd::prelude::*;
use vstd::string::StringExecFns;

verus! {

/// The instructions `bodies`, emitted from the `off`-th location from now,
/// each tagged with its location.
pub open spec fn located_from(bodies: Seq<Seq<char>>, d: Option<DebugState>, off: nat) -> Seq<Seq<char>> {
    Seq::new(bodies.len(), |i: int| instruction(bodies[i], location_after(d, off + i as nat)))
}

/// The counter frame of a counted loop: its `i64` slot, the index loaded in
/// the `cond` block, and the labels of the `cond`, increment and exit blocks.
pub struct Counter {
    pub slot: String,
    pub i: String,
    pub cond: String,
    pub incr: String,
    pub endl: String,
}

/// The lines a counter frame opens with, its registers starting at `n` and
/// its labels at `l`, its locations from the `off`-th from now.
pub open spec fn counter_lines(
    start: Seq<char>,
    bound: Seq<char>,
    n: nat,
    l: nat,
    d: Option<DebugState>,
    off: nat,
) -> Seq<Seq<char>> {
    located_from(
        seq![
            register(n) + " = alloca i64"@,
            "store i64 "@ + start + ", i64* "@ + register(n),
            "br label %"@ + label(l),
        ],
        d,
        off,
    ) + seq![label(l) + ":"@] + located_from(
        seq![
            register(n + 1) + " = load i64, i64* "@ + register(n),
            register(n + 2) + " = icmp slt i64 "@ + register(n + 1) + ", "@ + bound,
            "br i1 "@ + register(n + 2) + ", label %"@ + label(l + 1) + ", label %"@ + label(l + 3),
        ],
        d,
        off + 3,
    ) + seq![label(l + 1) + ":"@]
}

/// Open a counter frame: a slot initialised to `start`, a `cond` block that
/// loads it and tests it `< bound`, and the body, left open.
fn open_counter(cg: &mut Codegen, start: &str, bound: &str) -> (c: Counter)
    requires
        old(cg).wf(),
        old(cg).state().regs + 3 <= usize::MAX,
        old(cg).state().labels + 4 <= usize::MAX,
        old(cg).debug_fits(6),
    ensures
        ({
            let n = old(cg).state().regs as nat;
            let l = old(cg).state().labels as nat;
            &&& c.slot@ == register(n)
            &&& c.i@ == register(n + 1)
            &&& c.cond@ == label(l)
            &&& c.incr@ == label(l + 2)
            &&& c.endl@ == label(l + 3)
            &&& final(cg).wf()
            &&& final(cg).state() == (Emission {
                regs: (n + 3) as usize,
                labels: (l + 4) as usize,
                lines: old(cg).state().lines + counter_lines(start@, bound@, n, l, old(cg).debug(), 0),
                block: label(l + 1),
                ..old(cg).state()
            })
            &&& located_n(old(cg).debug(), final(cg).debug(), 6)
            &&& final(cg).coverage() == old(cg).coverage()
        }),
{
    let ghost d0 = old(cg).debug();
    let ghost n = old(cg).state().regs as nat;
    let ghost l = old(cg).state().labels as nat;
    proof {
        lemma_wf_debug(*old(cg));
        lemma_located_none(d0);
    }
    let slot = cg.fresh_reg();
    let mut t1 = slot.clone();
    t1.append(" = alloca i64");
    let ghost e0 = cg.debug();
    cg.emit(t1.as_str());
    proof {
        lemma_located_step(d0, e0, cg.debug(), 0);
    }
    let mut t2 = owned("store i64 ");
    t2.append(start);
    t2.append(", i64* ");
    t2.append(slot.as_str());
    let ghost e1 = cg.debug();
    cg.emit(t2.as_str());
    proof {
        lemma_located_step(d0, e1, cg.debug(), 1);
    }
    let cond = cg.fresh_label();
    let body = cg.fresh_label();
    let incr = cg.fresh_label();
    let endl = cg.fresh_label();
    let mut t3 = owned("br label %");
    t3.append(cond.as_str());
    let ghost e2 = cg.debug();
    cg.emit(t3.as_str());
    proof {
        lemma_located_step(d0, e2, cg.debug(), 2);
    }
    let ghost first = cg.state().lines;
    cg.start_block(cond.as_str());
    let i = cg.fresh_reg();
    let mut t4 = i.clone();
    t4.append(" = load i64, i64* ");
    t4.append(slot.as_str());
    let ghost e3 = cg.debug();
    cg.emit(t4.as_str());
    proof {
        lemma_located_step(d0, e3, cg.debug(), 3);
    }
    let more = cg.fresh_reg();
    let mut t5 = more.clone();
    t5.append(" = icmp slt i64 ");
    t5.append(i.as_str());
    t5.append(", ");
    t5.append(bound);
    let ghost e4 = cg.debug();
    cg.emit(t5.as_str());
    proof {
        lemma_located_step(d0, e4, cg.debug(), 4);
    }
    let mut t6 = owned("br i1 ");
    t6.append(more.as_str());
    t6.append(", label %");
    t6.append(body.as_str());
    t6.append(", label %");
    t6.append(endl.as_str());
    let ghost e5 = cg.debug();
    cg.emit(t6.as_str());
    proof {
        lemma_located_step(d0, e5, cg.debug(), 5);
    }
    cg.start_block(body.as_str());
    proof {
        assert(cg.state().lines =~~= old(cg).state().lines + counter_lines(start@, bound@, n, l, d0, 0));
    }
    Counter { slot, i, cond, incr, endl }
}

/// The lines a counter frame closes with, its one register `n`, its
/// locations from the `off`-th from now.
pub open spec fn close_lines(c: Counter, n: nat, d: Option<DebugState>, off: nat) -> Seq<Seq<char>> {
    frame_close_lines(c.slot@, c.i@, c.cond@, c.incr@, c.endl@, n, d, off)
}

/// The lines closing the counter frame with slot `slot`, index `i` and
/// blocks `cond`, `incr` and `endl`: its one register `n`, its locations from
/// the `off`-th from now.
pub open spec fn frame_close_lines(
    slot: Seq<char>,
    i: Seq<char>,
    cond: Seq<char>,
    incr: Seq<char>,
    endl: Seq<char>,
    n: nat,
    d: Option<DebugState>,
    off: nat,
) -> Seq<Seq<char>> {
    located_from(seq!["br label %"@ + incr], d, off) + seq![incr + ":"@] + located_from(
        seq![
            register(n) + " = "@ + "add i64 "@ + i + ", 1"@,
            "store i64 "@ + register(n) + ", i64* "@ + slot,
            "br label %"@ + cond,
        ],
        d,
        off + 1,
    ) + seq![endl + ":"@]
}

/// Instructions emitted after `off` earlier ones sit at the locations that
/// follow them.
pub proof fn lemma_emitted_from(d0: Option<DebugState>, c1: Codegen, c2: Codegen, bodies: Seq<Seq<char>>, k: nat, off: nat)
    requires
        located_n(d0, c1.debug(), off),
        emitted(c1, c2, bodies, k),
    ensures
        located_n(d0, c2.debug(), off + bodies.len()),
        c2.state().lines == c1.state().lines + located_from(bodies, d0, off),
{
    lemma_located_concat(d0, c1.debug(), c2.debug(), off, bodies.len());
    assert(located_lines(bodies, c1.debug()) =~= located_from(bodies, d0, off));
}

/// Two runs of located instructions, the second right after the first, are
/// one run.
pub proof fn lemma_from_concat(a: Seq<Seq<char>>, b: Seq<Seq<char>>, d: Option<DebugState>, off: nat)
    ensures
        located_from(a, d, off) + located_from(b, d, off + a.len()) == located_from(a + b, d, off),
{
    assert(located_from(a, d, off) + located_from(b, d, off + a.len()) =~= located_from(a + b, d, off));
}

/// A counter frame opened after `off` located instructions.
pub proof fn lemma_counter_from(
    d0: Option<DebugState>,
    d1: Option<DebugState>,
    d2: Option<DebugState>,
    off: nat,
    start: Seq<char>,
    bound: Seq<char>,
    n: nat,
    l: nat,
)
    requires
        located_n(d0, d1, off),
        located_n(d1, d2, 6),
    ensures
        located_n(d0, d2, off + 6),
        counter_lines(start, bound, n, l, d1, 0) == counter_lines(start, bound, n, l, d0, off),
{
    lemma_located_concat(d0, d1, d2, off, 6);
    assert(counter_lines(start, bound, n, l, d1, 0) =~~= counter_lines(start, bound, n, l, d0, off));
}

/// A counter frame closed after `off` located instructions.
pub proof fn lemma_close_from(d0: Option<DebugState>, d1: Option<DebugState>, d2: Option<DebugState>, off: nat, c: Counter, n: nat)
    requires
        located_n(d0, d1, off),
        located_n(d1, d2, 4),
    ensures
        located_n(d0, d2, off + 4),
        close_lines(c, n, d1, 0) == close_lines(c, n, d0, off),
{
    lemma_located_concat(d0, d1, d2, off, 4);
    assert(close_lines(c, n, d1, 0) =~~= close_lines(c, n, d0, off));
}

/// Close a counter frame: branch to the increment, bump the slot, branch
/// back to `cond`, and open the exit block.
fn close_counter(cg: &mut Codegen, c: &Counter)
    requires
        old(cg).wf(),
        old(cg).state().regs < usize::MAX,
        old(cg).debug_fits(4),
    ensures
        final(cg).wf(),
        final(cg).state() == (Emission {
            regs: (old(cg).state().regs + 1) as usize,
            lines: old(cg).state().lines + close_lines(*c, old(cg).state().regs as nat, old(cg).debug(), 0),
            block: c.endl@,
            ..old(cg).state()
        }),
        located_n(old(cg).debug(), final(cg).debug(), 4),
        final(cg).coverage() == old(cg).coverage(),
{
    let ghost d0 = old(cg).debug();
    proof {
        lemma_wf_debug(*old(cg));
        lemma_located_none(d0);
    }
    let mut t1 = owned("br label %");
    t1.append(c.incr.as_str());
    cg.emit(t1.as_str());
    proof {
        lemma_located_step(d0, d0, cg.debug(), 0);
    }
    cg.start_block(c.incr.as_str());
    let mut rhs = owned("add i64 ");
    rhs.append(c.i.as_str());
    rhs.append(", 1");
    let ghost e1 = cg.debug();
    let next = cg.emit_reg(rhs.as_str());
    proof {
        lemma_located_step(d0, e1, cg.debug(), 1);
    }
    let mut t3 = owned("store i64 ");
    t3.append(next.as_str());
    t3.append(", i64* ");
    t3.append(c.slot.as_str());
    let ghost e2 = cg.debug();
    cg.emit(t3.as_str());
    proof {
        lemma_located_step(d0, e2, cg.debug(), 2);
    }
    let mut t4 = owned("br label %");
    t4.append(c.cond.as_str());
    let ghost e3 = cg.debug();
    cg.emit(t4.as_str());
    proof {
        lemma_located_step(d0, e3, cg.debug(), 3);
    }
    cg.start_block(c.endl.as_str());
    proof {
        assert(cg.state().lines =~~= old(cg).state().lines + close_lines(
            *c,
            old(cg).state().regs as nat,
            d0,
            0,
        ));
    }
}

/// A counted loop over a runtime list handle: the counter, and the current
/// element loaded as a uniform `i64` word.
pub struct ListLoop {
    pub counter: Counter,
    pub elem: String,
}

/// Open a counted loop over the runtime list `l`: its length bounds the
/// counter, and the body starts by fetching the current element.
#[verifier::rlimit(60)]
pub fn open_list_loop(cg: &mut Codegen, l: &str) -> (lp: ListLoop)
    requires
        old(cg).wf(),
        old(cg).state().regs + 5 <= usize::MAX,
        old(cg).state().labels + 4 <= usize::MAX,
        old(cg).debug_fits(8),
    ensures
        ({
            let n = old(cg).state().regs as nat;
            let lb = old(cg).state().labels as nat;
            let d = old(cg).debug();
            let len = register(n);
            &&& lp.counter.slot@ == register(n + 1)
            &&& lp.counter.i@ == register(n + 2)
            &&& lp.counter.cond@ == label(lb)
            &&& lp.counter.incr@ == label(lb + 2)
            &&& lp.counter.endl@ == label(lb + 3)
            &&& lp.elem@ == register(n + 4)
            &&& final(cg).wf()
            &&& final(cg).state().externs.to_set() == old(cg).state().externs.to_set().insert(
                declaration("i64"@, "osprey_list_length"@, "i8*"@),
            ).insert(declaration("i64"@, "osprey_list_get"@, "i8*, i64"@))
            &&& final(cg).state() == (Emission {
                externs: final(cg).state().externs,
                regs: (n + 5) as usize,
                labels: (lb + 4) as usize,
                lines: old(cg).state().lines + located_from(
                    seq![len + " = "@ + call_text("i64"@, "osprey_list_length"@, "i8*"@, seq![l@])],
                    d,
                    0,
                ) + counter_lines("0"@, len, n + 1, lb, d, 1) + located_from(
                    seq![
                        register(n + 4) + " = "@ + call_text(
                            "i64"@,
                            "osprey_list_get"@,
                            "i8*, i64"@,
                            seq![l@, register(n + 2)],
                        ),
                    ],
                    d,
                    7,
                ),
                block: label(lb + 1),
                ..old(cg).state()
            })
            &&& located_n(d, final(cg).debug(), 8)
            &&& final(cg).coverage() == old(cg).coverage()
        }),
{
    let ghost d0 = old(cg).debug();
    proof {
        lemma_wf_debug(*old(cg));
        lemma_located_none(d0);
    }
    let a1: [&str; 1] = [l];
    let len = cg.call("i64", "osprey_list_length", "i8*", &a1);
    let ghost d1 = cg.debug();
    proof {
        lemma_located_step(d0, d0, d1, 0);
    }
    let counter = open_counter(cg, "0", len.as_str());
    let ghost d7 = cg.debug();
    proof {
        lemma_located_concat(d0, d1, d7, 1, 6);
    }
    let a2: [&str; 2] = [l, counter.i.as_str()];
    let elem = cg.call("i64", "osprey_list_get", "i8*, i64", &a2);
    proof {
        lemma_located_step(d0, d7, cg.debug(), 7);
        assert(arg_texts(a1@) =~= seq![l@]);
        assert(arg_texts(a2@) =~= seq![l@, register(old(cg).state().regs as nat + 2)]);
        let n = old(cg).state().regs as nat;
        let len_s = register(n);
        assert(counter_lines("0"@, len_s, n + 1, old(cg).state().labels as nat, d1, 0) =~~= counter_lines(
            "0"@,
            len_s,
            n + 1,
            old(cg).state().labels as nat,
            d0,
            1,
        ));
        assert(cg.state().lines =~~= old(cg).state().lines + located_from(
            seq![len_s + " = "@ + call_text("i64"@, "osprey_list_length"@, "i8*"@, seq![l@])],
            d0,
            0,
        ) + counter_lines("0"@, len_s, n + 1, old(cg).state().labels as nat, d0, 1)
            + located_from(
            seq![
                register(n + 4) + " = "@ + call_text(
                    "i64"@,
                    "osprey_list_get"@,
                    "i8*, i64"@,
                    seq![l@, register(n + 2)],
                ),
            ],
            d0,
            7,
        ));
    }
    ListLoop { counter, elem }
}

/// Close a counted loop over a list.
pub fn close_list_loop(cg: &mut Codegen, lp: &ListLoop)
    requires
        old(cg).wf(),
        old(cg).state().regs < usize::MAX,
        old(cg).debug_fits(4),
    ensures
        final(cg).wf(),
        final(cg).state() == (Emission {
            regs: (old(cg).state().regs + 1) as usize,
            lines: old(cg).state().lines + close_lines(lp.counter, old(cg).state().regs as nat, old(cg).debug(), 0),
            block: lp.counter.endl@,
            ..old(cg).state()
        }),
        located_n(old(cg).debug(), final(cg).debug(), 4),
        final(cg).coverage() == old(cg).coverage(),
{
    close_counter(cg, &lp.counter);
}

/// Open a counted loop over the half-open range `[start, end)`, step 1.
pub fn open_range_loop(cg: &mut Codegen, start: &str, end: &str) -> (c: Counter)
    requires
        old(cg).wf(),
        old(cg).state().regs + 3 <= usize::MAX,
        old(cg).state().labels + 4 <= usize::MAX,
        old(cg).debug_fits(6),
    ensures
        ({
            let n = old(cg).state().regs as nat;
            let l = old(cg).state().labels as nat;
            &&& c.slot@ == register(n)
            &&& c.i@ == register(n + 1)
            &&& c.cond@ == label(l)
            &&& c.incr@ == label(l + 2)
            &&& c.endl@ == label(l + 3)
            &&& final(cg).wf()
            &&& final(cg).state() == (Emission {
                regs: (n + 3) as usize,
                labels: (l + 4) as usize,
                lines: old(cg).state().lines + counter_lines(start@, end@, n, l, old(cg).debug(), 0),
                block: label(l + 1),
                ..old(cg).state()
            })
            &&& located_n(old(cg).debug(), final(cg).debug(), 6)
            &&& final(cg).coverage() == old(cg).coverage()
        }),
{
    open_counter(cg, start, end)
}

/// Close a counted loop over a range.
pub fn close_range_loop(cg: &mut Codegen, lp: &Counter)
    requires
        old(cg).wf(),
        old(cg).state().regs < usize::MAX,
        old(cg).debug_fits(4),
    ensures
        final(cg).wf(),
        final(cg).state() == (Emission {
            regs: (old(cg).state().regs + 1) as usize,
            lines: old(cg).state().lines + close_lines(*lp, old(cg).state().regs as nat, old(cg).debug(), 0),
            block: lp.endl@,
            ..old(cg).state()
        }),
        located_n(old(cg).debug(), final(cg).debug(), 4),
        final(cg).coverage() == old(cg).coverage(),
{
    close_counter(cg, lp);
}

} // verus!
