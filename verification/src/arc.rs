//! The ownership ledger behind dup/drop insertion: which managed values each
//! open region (function body, statement, loop body) owns, the entry-block
//! slot each is spilled to, and which slots must be released when a region
//! ends. Every producer owns (+1), stores dup, owners drop at region end,
//! returns transfer (+1).
//!
//! The ledger makes the decisions; the code generator emits the IR for them.
//! Each operation that ends an owner's life hands back the slot (or slots,
//! newest first) whose value must now be released and re-nulled.

use crate::builder::{
    declares, emitted, grows, lemma_wf_debug, lemma_emitted_none, lemma_emitted_trans, lemma_located_concat, located_lines,
    located_n, location_after, register, same_externs, unchanged, Codegen, Emission,
};
use crate::llty::{opt_text, texts, Value};
use crate::names::NameSet;
use crate::text::{decimal, ends_with, has_prefix, has_suffix, owned, starts_with, str_eq};
use vstd::string::StringExecFns;
use vstd::prelude::*;

verus! {

/// An owner as the ledger's contracts see it.
pub struct Owner {
    /// The SSA operand it was registered under.
    pub operand: Seq<char>,
    /// The name a `let` bound it to, once bound.
    pub name: Option<Seq<char>>,
    /// The lexical scope that introduced `name`.
    pub binding_scope: Option<usize>,
    /// Its entry-block spill slot.
    pub slot: Seq<char>,
    /// Whether it provably holds no managed references.
    pub pure_scalar: bool,
}

/// A fresh, unnamed, possibly impure owner.
pub open spec fn fresh_owner(operand: Seq<char>, slot: Seq<char>) -> Owner {
    Owner { operand, name: None, binding_scope: None, slot, pure_scalar: false }
}

/// The slots of `f`, newest first: the order in which a region releases them.
pub open spec fn release_order(f: Seq<Owner>) -> Seq<Seq<char>>
    decreases f.len(),
{
    if f.len() == 0 {
        Seq::empty()
    } else {
        seq![f.last().slot] + release_order(f.drop_last())
    }
}

/// The index of the newest owner in `f` registered under `operand`, or -1.
pub open spec fn newest(f: Seq<Owner>, operand: Seq<char>) -> int
    decreases f.len(),
{
    if f.len() == 0 {
        -1
    } else if f.last().operand == operand {
        f.len() - 1
    } else {
        newest(f.drop_last(), operand)
    }
}

/// The index of the newest unnamed owner in `f` registered under `operand`,
/// or -1.
pub open spec fn newest_unnamed(f: Seq<Owner>, operand: Seq<char>) -> int
    decreases f.len(),
{
    if f.len() == 0 {
        -1
    } else if f.last().operand == operand && f.last().name is None {
        f.len() - 1
    } else {
        newest_unnamed(f.drop_last(), operand)
    }
}

/// Where the newest (unnamed) owner under `operand` stands: in range, and
/// registered under `operand`.
pub proof fn lemma_newest_found(f: Seq<Owner>, operand: Seq<char>)
    ensures
        -1 <= newest(f, operand) < f.len(),
        newest(f, operand) >= 0 ==> f[newest(f, operand)].operand == operand,
        -1 <= newest_unnamed(f, operand) < f.len(),
        newest_unnamed(f, operand) >= 0 ==> f[newest_unnamed(f, operand)].operand == operand
            && f[newest_unnamed(f, operand)].name is None,
    decreases f.len(),
{
    if f.len() > 0 {
        lemma_newest_found(f.drop_last(), operand);
    }
}

/// The owner count below which the owners of the frame at `depth` predate
/// the innermost conditional opened at that depth; 0 when none is open there.
pub open spec fn floor_at(floors: Seq<(usize, usize)>, depth: int) -> int
    decreases floors.len(),
{
    if floors.len() == 0 {
        0
    } else if floors.last().0 == depth {
        floors.last().1 as int
    } else {
        floor_at(floors.drop_last(), depth)
    }
}

/// Whether the newest owner of the innermost frame is `operand`, unnamed and
/// pure-scalar, and was registered inside the innermost open conditional.
pub open spec fn retirable(frames: Seq<Seq<Owner>>, floors: Seq<(usize, usize)>, operand: Seq<char>) -> bool {
    &&& frames.len() > 0
    &&& frames.last().len() > 0
    &&& frames.last().last().operand == operand
    &&& frames.last().last().name is None
    &&& frames.last().last().pure_scalar
    &&& frames.last().len() > floor_at(floors, frames.len() as int)
}

/// Whether `operand` has an unnamed owner among the owners of `f` from index
/// `mark` on (a pure-scalar one, when `pure`).
pub open spec fn arm_owned(f: Seq<Owner>, mark: int, operand: Seq<char>, pure: bool) -> bool {
    exists|k: int|
        0 <= k && mark <= k < f.len() && #[trigger] f[k].operand == operand && f[k].name is None
            && (!pure || f[k].pure_scalar)
}

/// Whether every incoming operand has such an owner.
pub open spec fn all_arm_owned(f: Seq<Owner>, mark: int, incoming: Seq<Seq<char>>, pure: bool) -> bool {
    forall|i: int| 0 <= i < incoming.len() ==> #[trigger] arm_owned(f, mark, incoming[i], pure)
}

/// Whether a phi merge consumes `o`: unnamed and one of the incoming values.
pub open spec fn consumable(o: Owner, incoming: Seq<Seq<char>>) -> bool {
    o.name is None && incoming.contains(o.operand)
}

/// The owners of `s` a phi merge keeps, in order.
pub open spec fn unconsumed(s: Seq<Owner>, incoming: Seq<Seq<char>>) -> Seq<Owner>
    decreases s.len(),
{
    if s.len() == 0 {
        Seq::empty()
    } else if consumable(s.last(), incoming) {
        unconsumed(s.drop_last(), incoming)
    } else {
        unconsumed(s.drop_last(), incoming).push(s.last())
    }
}

/// The frame a `let` moves its owner into: the one beneath the innermost,
/// or the innermost when it is the only one.
pub open spec fn parent_index(n: int) -> int {
    if n >= 2 {
        n - 2
    } else {
        n - 1
    }
}

/// The first frame holding an owner registered under `operand`, or -1.
pub open spec fn holder(frames: Seq<Seq<Owner>>, operand: Seq<char>) -> int
    decreases frames.len(),
{
    if frames.len() == 0 {
        -1
    } else if newest(frames[0], operand) >= 0 {
        0
    } else if holder(frames.drop_first(), operand) < 0 {
        -1
    } else {
        holder(frames.drop_first(), operand) + 1
    }
}

/// `frames` without the newest owner under `operand` of the first frame
/// holding one; unchanged when none does.
pub open spec fn without_owner(frames: Seq<Seq<Owner>>, operand: Seq<char>) -> Seq<Seq<Owner>> {
    let j = holder(frames, operand);
    if j < 0 {
        frames
    } else {
        frames.update(j, frames[j].remove(newest(frames[j], operand)))
    }
}

/// Every slot of every frame, innermost frame first, each newest first.
pub open spec fn release_all(frames: Seq<Seq<Owner>>) -> Seq<Seq<char>>
    decreases frames.len(),
{
    if frames.len() == 0 {
        Seq::empty()
    } else {
        release_order(frames.last()) + release_all(frames.drop_last())
    }
}

/// Whether `o` is bound in `scope` to a name its continuation no longer
/// references.
pub open spec fn is_dead(o: Owner, live: Set<Seq<char>>, scope: Option<usize>) -> bool {
    match o.name {
        Some(n) => o.binding_scope == scope && !live.contains(n),
        None => false,
    }
}

/// The owners of `s` that are dead, in order.
pub open spec fn dead_owners(s: Seq<Owner>, live: Set<Seq<char>>, scope: Option<usize>) -> Seq<Owner>
    decreases s.len(),
{
    if s.len() == 0 {
        Seq::empty()
    } else if is_dead(s.last(), live, scope) {
        dead_owners(s.drop_last(), live, scope).push(s.last())
    } else {
        dead_owners(s.drop_last(), live, scope)
    }
}

/// The owners of `s` that are not dead, in order.
pub open spec fn live_owners(s: Seq<Owner>, live: Set<Seq<char>>, scope: Option<usize>) -> Seq<Owner>
    decreases s.len(),
{
    if s.len() == 0 {
        Seq::empty()
    } else if is_dead(s.last(), live, scope) {
        live_owners(s.drop_last(), live, scope)
    } else {
        live_owners(s.drop_last(), live, scope).push(s.last())
    }
}

/// The names of the named owners of `s`, in order.
pub open spec fn owner_names_of(s: Seq<Owner>) -> Seq<Seq<char>>
    decreases s.len(),
{
    if s.len() == 0 {
        Seq::empty()
    } else {
        match s.last().name {
            Some(n) => owner_names_of(s.drop_last()).push(n),
            None => owner_names_of(s.drop_last()),
        }
    }
}

/// Closing a region right after opening it releases nothing and leaves the
/// frames as they were.
pub proof fn law_pop_frame_undoes_push_frame(frames: Seq<Seq<Owner>>)
    ensures
        frames.push(Seq::empty()).drop_last() == frames,
        release_order(frames.push(Seq::empty()).last()) == Seq::<Seq<char>>::empty(),
{
    assert(frames.push(Seq::empty()).drop_last() =~= frames);
}

/// A region releases each of its owners' slots exactly once, newest first.
pub proof fn law_release_order_is_newest_first(f: Seq<Owner>)
    ensures
        release_order(f).len() == f.len(),
        forall|i: int| 0 <= i < f.len() ==> #[trigger] release_order(f)[i] == f[f.len() - 1 - i].slot,
    decreases f.len(),
{
    if f.len() > 0 {
        law_release_order_is_newest_first(f.drop_last());
        assert forall|i: int| 0 <= i < f.len() implies #[trigger] release_order(f)[i] == f[f.len()
            - 1 - i].slot by {
            if i > 0 {
                assert(release_order(f)[i] == release_order(f.drop_last())[i - 1]);
            }
        }
    }
}

/// Once a conditional opens, no owner the frame already held can be retired
/// at its use: only owners registered after the branch, on this path alone,
/// are retirable.
pub proof fn law_branch_protects_prior_owners(
    frames: Seq<Seq<Owner>>,
    floors: Seq<(usize, usize)>,
    mark: usize,
    operand: Seq<char>,
)
    requires
        frames.len() > 0,
        frames.len() <= usize::MAX,
        mark == frames.last().len(),
    ensures
        !retirable(frames, floors.push((frames.len() as usize, mark)), operand),
{
    assert(floors.push((frames.len() as usize, mark)).last() == (frames.len() as usize, mark));
}

/// Every owner an early release leaves behind is kept once and the dead
/// ones are released once: the frame is split, nothing is lost or
/// duplicated, an owner bound in another scope or still referenced is
/// never released, and every released one is bound in `scope` to a name
/// outside `live`.
pub proof fn law_release_dead_splits_the_frame(
    f: Seq<Owner>,
    live: Set<Seq<char>>,
    scope: Option<usize>,
)
    ensures
        f.to_multiset() == dead_owners(f, live, scope).to_multiset().add(
            live_owners(f, live, scope).to_multiset(),
        ),
        forall|i: int|
            0 <= i < dead_owners(f, live, scope).len() ==> is_dead(
                #[trigger] dead_owners(f, live, scope)[i],
                live,
                scope,
            ),
        forall|i: int|
            0 <= i < f.len() && !is_dead(f[i], live, scope) ==> live_owners(
                f,
                live,
                scope,
            ).contains(#[trigger] f[i]),
    decreases f.len(),
{
    broadcast use vstd::seq_lib::group_to_multiset_ensures;

    if f.len() == 0 {
        assert(f.to_multiset() =~= vstd::multiset::Multiset::empty());
        assert(dead_owners(f, live, scope).to_multiset() =~= vstd::multiset::Multiset::empty());
        assert(live_owners(f, live, scope).to_multiset() =~= vstd::multiset::Multiset::empty());
    } else {
        let g = f.drop_last();
        let x = f.last();
        law_release_dead_splits_the_frame(g, live, scope);
        assert(g.push(x) =~= f);
        let d = dead_owners(g, live, scope);
        let l = live_owners(g, live, scope);
        if is_dead(x, live, scope) {
            assert(f.to_multiset() =~= d.push(x).to_multiset().add(l.to_multiset()));
        } else {
            assert(f.to_multiset() =~= d.to_multiset().add(l.push(x).to_multiset()));
        }
        assert forall|i: int|
            0 <= i < dead_owners(f, live, scope).len() implies is_dead(
            #[trigger] dead_owners(f, live, scope)[i],
            live,
            scope,
        ) by {
            if i < d.len() {
                assert(dead_owners(f, live, scope)[i] == d[i]);
            }
        }
        assert forall|i: int| 0 <= i < f.len() && !is_dead(f[i], live, scope) implies live_owners(
            f,
            live,
            scope,
        ).contains(#[trigger] f[i]) by {
            if i < g.len() {
                assert(f[i] == g[i]);
                let k = choose|k: int| 0 <= k < l.len() && l[k] == g[i];
                assert(live_owners(f, live, scope)[k] == l[k]);
            } else {
                assert(live_owners(f, live, scope).last() == x);
            }
        }
    }
}

/// A phi merge drops exactly the consumed owners: what it keeps is not
/// consumable, and every owner that is not consumable is kept.
pub proof fn law_phi_merge_drops_only_consumed(s: Seq<Owner>, incoming: Seq<Seq<char>>)
    ensures
        forall|i: int|
            0 <= i < unconsumed(s, incoming).len() ==> !consumable(
                #[trigger] unconsumed(s, incoming)[i],
                incoming,
            ) && s.contains(unconsumed(s, incoming)[i]),
        forall|i: int|
            0 <= i < s.len() && !consumable(s[i], incoming) ==> unconsumed(s, incoming).contains(
                #[trigger] s[i],
            ),
    decreases s.len(),
{
    if s.len() > 0 {
        let g = s.drop_last();
        let x = s.last();
        law_phi_merge_drops_only_consumed(g, incoming);
        let u = unconsumed(g, incoming);
        assert forall|i: int| 0 <= i < unconsumed(s, incoming).len() implies !consumable(
            #[trigger] unconsumed(s, incoming)[i],
            incoming,
        ) && s.contains(unconsumed(s, incoming)[i]) by {
            if i < u.len() {
                assert(unconsumed(s, incoming)[i] == u[i]);
                let k = choose|k: int| 0 <= k < g.len() && g[k] == u[i];
                assert(s[k] == g[k]);
            } else {
                assert(s[s.len() - 1] == x);
            }
        }
        assert forall|i: int| 0 <= i < s.len() && !consumable(s[i], incoming) implies unconsumed(
            s,
            incoming,
        ).contains(#[trigger] s[i]) by {
            if i < g.len() {
                assert(s[i] == g[i]);
                let k = choose|k: int| 0 <= k < u.len() && u[k] == g[i];
                assert(unconsumed(s, incoming)[k] == u[k]);
            } else {
                assert(unconsumed(s, incoming).last() == x);
            }
        }
    }
}

/// One owned value.
struct Entry {
    operand: String,
    name: Option<String>,
    binding_scope: Option<usize>,
    slot: String,
    pure_scalar: bool,
}

/// The contract view of an entry.
spec fn owner_of(e: Entry) -> Owner {
    Owner {
        operand: e.operand@,
        name: opt_text(e.name),
        binding_scope: e.binding_scope,
        slot: e.slot@,
        pure_scalar: e.pure_scalar,
    }
}

/// The contract view of a frame.
spec fn frame_view(f: Seq<Entry>) -> Seq<Owner> {
    f.map_values(|e: Entry| owner_of(e))
}

/// The per-function ownership ledger: a stack of frames, and the open
/// conditional regions as (frame depth, ledger length at the branch).
pub struct ArcLedger {
    frames: Vec<Vec<Entry>>,
    cond_floors: Vec<(usize, usize)>,
}

impl ArcLedger {
    /// The open frames, outermost first, each holding its owners oldest
    /// first.
    pub closed spec fn frames(&self) -> Seq<Seq<Owner>> {
        self.frames@.map_values(|f: Vec<Entry>| frame_view(f@))
    }

    /// The open conditional regions, innermost last: the frame depth each was
    /// opened at and the number of owners that frame already held.
    pub closed spec fn floors(&self) -> Seq<(usize, usize)> {
        self.cond_floors@
    }

    /// A ledger with one empty frame and no conditional open.
    pub fn new() -> (r: ArcLedger)
        ensures
            r.frames() == seq![Seq::<Owner>::empty()],
            r.floors() == Seq::<(usize, usize)>::empty(),
    {
        let mut frames: Vec<Vec<Entry>> = Vec::new();
        frames.push(Vec::new());
        let r = ArcLedger { frames, cond_floors: Vec::new() };
        assert(frame_view(r.frames@[0]@) =~= Seq::<Owner>::empty());
        assert(r.frames() =~= seq![Seq::<Owner>::empty()]);
        r
    }

    /// Register the value in `operand`, spilled to `slot`, as owned (+1) by
    /// the innermost open region; nothing when no region is open.
    pub fn own(&mut self, operand: &str, slot: &str)
        ensures
            final(self).floors() == old(self).floors(),
            old(self).frames().len() > 0 ==> final(self).frames() == old(self).frames().update(
                old(self).frames().len() - 1,
                old(self).frames().last().push(fresh_owner(operand@, slot@)),
            ),
            old(self).frames().len() == 0 ==> final(self).frames() == old(self).frames(),
    {
        let n = self.frames.len();
        if n == 0 {
            return;
        }
        let ghost before = self.frames();
        let e = Entry {
            operand: owned(operand),
            name: None,
            binding_scope: None,
            slot: owned(slot),
            pure_scalar: false,
        };
        let mut last = self.frames.pop().unwrap();
        let ghost last0 = last@;
        last.push(e);
        assert(frame_view(last@) =~= frame_view(last0).push(fresh_owner(operand@, slot@)));
        self.frames.push(last);
        assert(self.frames() =~= before.update(
            before.len() - 1,
            before.last().push(fresh_owner(operand@, slot@)),
        ));
    }

    /// Mark the newest owner of the innermost frame as holding no managed
    /// references, when it is the one registered under `operand`.
    pub fn mark_pure_scalar(&mut self, operand: &str)
        ensures
            final(self).floors() == old(self).floors(),
            ({
                let fr = old(self).frames();
                if fr.len() > 0 && fr.last().len() > 0 && fr.last().last().operand == operand@ {
                    final(self).frames() == fr.update(
                        fr.len() - 1,
                        fr.last().update(
                            fr.last().len() - 1,
                            Owner { pure_scalar: true, ..fr.last().last() },
                        ),
                    )
                } else {
                    final(self).frames() == fr
                }
            }),
    {
        let n = self.frames.len();
        if n == 0 {
            return;
        }
        let m = self.frames[n - 1].len();
        if m == 0 {
            return;
        }
        if !str_eq(self.frames[n - 1][m - 1].operand.as_str(), operand) {
            return;
        }
        let ghost fr = self.frames();
        let mut last = self.frames.pop().unwrap();
        let mut e = last.pop().unwrap();
        e.pure_scalar = true;
        let ghost lv = frame_view(last@);
        last.push(e);
        assert(frame_view(last@) =~= fr.last().update(
            fr.last().len() - 1,
            Owner { pure_scalar: true, ..fr.last().last() },
        )) by {
            assert(lv =~= fr.last().drop_last());
        }
        self.frames.push(last);
        assert(self.frames() =~= fr.update(
            fr.len() - 1,
            fr.last().update(fr.last().len() - 1, Owner { pure_scalar: true, ..fr.last().last() }),
        ));
    }

    /// Record that what is generated from here on runs on one path out of
    /// the region only, with `mark` owners of the innermost frame already
    /// live.
    pub fn open_conditional(&mut self, mark: usize)
        ensures
            final(self).frames() == old(self).frames(),
            final(self).floors() == old(self).floors().push((old(self).frames().len() as usize, mark)),
    {
        let depth = self.frames.len();
        self.cond_floors.push((depth, mark));
    }

    /// Both paths have merged: the innermost conditional is closed.
    pub fn close_conditional(&mut self)
        ensures
            final(self).frames() == old(self).frames(),
            old(self).floors().len() > 0 ==> final(self).floors() == old(self).floors().drop_last(),
            old(self).floors().len() == 0 ==> final(self).floors() == old(self).floors(),
    {
        let _ = self.cond_floors.pop();
    }

    /// The owner count of the innermost frame below which its owners predate
    /// the innermost conditional opened in this frame; 0 when none is.
    pub fn conditional_floor(&self) -> (r: usize)
        ensures
            r == floor_at(self.floors(), self.frames().len() as int),
    {
        let depth = self.frames.len();
        let mut k: usize = self.cond_floors.len();
        let ghost fl = self.floors();
        assert(fl.subrange(0, k as int) =~= fl);
        while k > 0
            invariant
                k <= fl.len(),
                fl == self.floors(),
                depth == self.frames().len(),
                floor_at(fl, depth as int) == floor_at(fl.subrange(0, k as int), depth as int),
            decreases k,
        {
            assert(fl.subrange(0, k as int).drop_last() =~= fl.subrange(0, k - 1));
            let (d, mark) = self.cond_floors[k - 1];
            if d == depth {
                return mark;
            }
            k = k - 1;
        }
        0
    }

    /// Retire a freshly produced, never-bound, pure-scalar owner at its
    /// immediate unwrap: when it is the newest owner of the innermost frame
    /// and was registered inside the innermost open conditional, remove it
    /// and hand back its slot, to be released as provably unique.
    pub fn consume_fresh(&mut self, operand: &str) -> (r: Option<String>)
        ensures
            final(self).floors() == old(self).floors(),
            retirable(old(self).frames(), old(self).floors(), operand@) ==> {
                let fr = old(self).frames();
                &&& final(self).frames() == fr.update(fr.len() - 1, fr.last().drop_last())
                &&& r is Some
                &&& r->0@ == fr.last().last().slot
            },
            !retirable(old(self).frames(), old(self).floors(), operand@) ==> r is None,
            r is None ==> *final(self) == *old(self),
    {
        let n = self.frames.len();
        if n == 0 {
            return None;
        }
        let m = self.frames[n - 1].len();
        if m == 0 {
            return None;
        }
        let fresh = {
            let e = &self.frames[n - 1][m - 1];
            str_eq(e.operand.as_str(), operand) && e.name.is_none() && e.pure_scalar
        };
        if !fresh {
            return None;
        }
        if m <= self.conditional_floor() {
            return None;
        }
        let ghost fr = self.frames();
        let mut last = self.frames.pop().unwrap();
        let e = last.pop().unwrap();
        assert(frame_view(last@) =~= fr.last().drop_last());
        self.frames.push(last);
        assert(self.frames() =~= fr.update(fr.len() - 1, fr.last().drop_last()));
        Some(e.slot)
    }

    /// The index of the newest entry of `f` registered under `operand`
    /// (unnamed ones only, when `unnamed`), if any.
    fn find_newest(f: &Vec<Entry>, operand: &str, unnamed: bool) -> (r: Option<usize>)
        ensures
            unnamed ==> match r {
                Some(k) => k as int == newest_unnamed(frame_view(f@), operand@),
                None => newest_unnamed(frame_view(f@), operand@) == -1,
            },
            !unnamed ==> match r {
                Some(k) => k as int == newest(frame_view(f@), operand@),
                None => newest(frame_view(f@), operand@) == -1,
            },
    {
        let ghost fv = frame_view(f@);
        let mut k: usize = f.len();
        assert(fv.subrange(0, k as int) =~= fv);
        while k > 0
            invariant
                k <= f@.len(),
                fv == frame_view(f@),
                !unnamed ==> newest(fv, operand@) == newest(fv.subrange(0, k as int), operand@),
                unnamed ==> newest_unnamed(fv, operand@) == newest_unnamed(
                    fv.subrange(0, k as int),
                    operand@,
                ),
            decreases k,
        {
            proof {
                assert(fv.subrange(0, k as int).drop_last() =~= fv.subrange(0, k - 1));
                assert(fv.subrange(0, k as int).last() == owner_of(f@[k - 1]));
            }
            let e = &f[k - 1];
            if str_eq(e.operand.as_str(), operand) && (!unnamed || e.name.is_none()) {
                return Some(k - 1);
            }
            k = k - 1;
        }
        None
    }

    /// Move a fresh owner into a heap slot instead of dup-ing it: remove the
    /// newest unnamed owner of the innermost frame registered under
    /// `operand` and hand back its slot, to be re-nulled; `None` (the store
    /// then dups) when there is none.
    pub fn consume_into_store(&mut self, operand: &str) -> (r: Option<String>)
        ensures
            final(self).floors() == old(self).floors(),
            ({
                let fr = old(self).frames();
                if fr.len() > 0 && newest_unnamed(fr.last(), operand@) >= 0 {
                    let k = newest_unnamed(fr.last(), operand@);
                    &&& final(self).frames() == fr.update(fr.len() - 1, fr.last().remove(k))
                    &&& r is Some
                    &&& r->0@ == fr.last()[k].slot
                } else {
                    r is None
                }
            }),
            r is None ==> *final(self) == *old(self),
    {
        let n = self.frames.len();
        if n == 0 {
            return None;
        }
        match Self::find_newest(&self.frames[n - 1], operand, true) {
            Some(k) => {
                let ghost fr = self.frames();
                proof {
                    lemma_newest_found(fr.last(), operand@);
                }
                let mut last = self.frames.pop().unwrap();
                let ghost l0 = last@;
                let e = last.remove(k);
                assert(frame_view(last@) =~= frame_view(l0).remove(k as int));
                self.frames.push(last);
                assert(self.frames() =~= fr.update(fr.len() - 1, fr.last().remove(k as int)));
                Some(e.slot)
            },
            None => None,
        }
    }

    /// Push `e` into the frame beneath the innermost, or the innermost when
    /// it is the only one.
    fn push_parent(&mut self, e: Entry)
        requires
            old(self).frames().len() > 0,
        ensures
            final(self).floors() == old(self).floors(),
            ({
                let fr = old(self).frames();
                let p = parent_index(fr.len() as int);
                final(self).frames() == fr.update(p, fr[p].push(owner_of(e)))
            }),
    {
        let n = self.frames.len();
        let at = if n >= 2 {
            n - 2
        } else {
            n - 1
        };
        let ghost fr = self.frames();
        let ghost f0 = self.frames@[at as int]@;
        let ghost ov = owner_of(e);
        self.frames[at].push(e);
        assert(frame_view(self.frames@[at as int]@) =~= frame_view(f0).push(ov));
        assert(self.frames() =~= fr.update(at as int, fr[at as int].push(ov)));
    }

    /// Register the value in `operand`, spilled to `slot`, as owned by the
    /// region that outlives the closing statement (a cell-backed `mut`).
    pub fn own_beyond_stmt(&mut self, operand: &str, slot: &str)
        requires
            old(self).frames().len() > 0,
        ensures
            final(self).floors() == old(self).floors(),
            ({
                let fr = old(self).frames();
                let p = parent_index(fr.len() as int);
                final(self).frames() == fr.update(p, fr[p].push(fresh_owner(operand@, slot@)))
            }),
    {
        let e = Entry {
            operand: owned(operand),
            name: None,
            binding_scope: None,
            slot: owned(slot),
            pure_scalar: false,
        };
        self.push_parent(e);
    }

    /// A `let` bound the value in `operand` to `name` in lexical scope
    /// `scope`: when the innermost region owns it, move its newest such
    /// owner, now named, into the parent region and answer true; answer
    /// false (the value is a borrow, to be retained and recorded with
    /// [`ArcLedger::bind_retained`]) otherwise.
    pub fn bind_owned(&mut self, name: &str, operand: &str, scope: Option<usize>) -> (moved: bool)
        requires
            old(self).frames().len() > 0,
        ensures
            final(self).floors() == old(self).floors(),
            ({
                let fr = old(self).frames();
                let k = newest(fr.last(), operand@);
                let rest = fr.update(fr.len() - 1, fr.last().remove(k));
                let p = parent_index(fr.len() as int);
                let o = Owner { name: Some(name@), binding_scope: scope, ..fr.last()[k] };
                if k >= 0 {
                    moved && final(self).frames() == rest.update(p, rest[p].push(o))
                } else {
                    !moved && final(self).frames() == fr
                }
            }),
            !moved ==> *final(self) == *old(self),
    {
        let n = self.frames.len();
        match Self::find_newest(&self.frames[n - 1], operand, false) {
            Some(k) => {
                let ghost fr = self.frames();
                proof {
                    lemma_newest_found(fr.last(), operand@);
                }
                let ghost l0 = self.frames@[n - 1]@;
                let mut e = self.frames[n - 1].remove(k);
                assert(frame_view(self.frames@[n - 1]@) =~= frame_view(l0).remove(k as int));
                assert(self.frames() =~= fr.update(fr.len() - 1, fr.last().remove(k as int)));
                e.name = Some(owned(name));
                e.binding_scope = scope;
                assert(owner_of(e) == Owner {
                    name: Some(name@),
                    binding_scope: scope,
                    ..fr.last()[k as int]
                });
                self.push_parent(e);
                true
            },
            None => false,
        }
    }

    /// Record the retained borrow in `operand`, spilled to `slot`, as the
    /// owner bound to `name` in `scope`, in the parent region.
    pub fn bind_retained(&mut self, name: &str, operand: &str, scope: Option<usize>, slot: &str)
        requires
            old(self).frames().len() > 0,
        ensures
            final(self).floors() == old(self).floors(),
            ({
                let fr = old(self).frames();
                let p = parent_index(fr.len() as int);
                let o = Owner {
                    operand: operand@,
                    name: Some(name@),
                    binding_scope: scope,
                    slot: slot@,
                    pure_scalar: false,
                };
                final(self).frames() == fr.update(p, fr[p].push(o))
            }),
    {
        let e = Entry {
            operand: owned(operand),
            name: Some(owned(name)),
            binding_scope: scope,
            slot: owned(slot),
            pure_scalar: false,
        };
        self.push_parent(e);
    }

    /// Whether `operand` has an unnamed owner in `f` from index `mark` on (a
    /// pure-scalar one, when `pure`).
    fn arm_owns(f: &Vec<Entry>, mark: usize, operand: &str, pure: bool) -> (r: bool)
        ensures
            r == arm_owned(frame_view(f@), mark as int, operand@, pure),
    {
        let ghost fv = frame_view(f@);
        let mut k: usize = mark;
        while k < f.len()
            invariant
                fv == frame_view(f@),
                mark <= k,
                forall|i: int|
                    mark <= i < k && i < fv.len() ==> !(#[trigger] fv[i].operand == operand@
                        && fv[i].name is None && (!pure || fv[i].pure_scalar)),
            decreases f@.len() - k,
        {
            let e = &f[k];
            if str_eq(e.operand.as_str(), operand) && e.name.is_none() && (!pure || e.pure_scalar) {
                assert(fv[k as int] == owner_of(f@[k as int]));
                assert(fv[k as int].operand == operand@);
                return true;
            }
            assert(fv[k as int] == owner_of(f@[k as int]));
            k = k + 1;
        }
        false
    }

    /// Whether every incoming operand has an unnamed owner in `f` from index
    /// `mark` on (a pure-scalar one, when `pure`).
    fn all_arms_own(f: &Vec<Entry>, mark: usize, incoming: &[String], pure: bool) -> (r: bool)
        ensures
            r == all_arm_owned(frame_view(f@), mark as int, texts(incoming@), pure),
    {
        let ghost inc = texts(incoming@);
        let mut i: usize = 0;
        while i < incoming.len()
            invariant
                i <= incoming@.len(),
                inc == texts(incoming@),
                forall|j: int|
                    0 <= j < i ==> #[trigger] arm_owned(frame_view(f@), mark as int, inc[j], pure),
            decreases incoming@.len() - i,
        {
            if !Self::arm_owns(f, mark, incoming[i].as_str(), pure) {
                assert(!arm_owned(frame_view(f@), mark as int, inc[i as int], pure));
                return false;
            }
            i = i + 1;
        }
        true
    }

    /// Whether every arm-produced owner feeding a phi was proved
    /// pure-scalar.
    pub fn incoming_all_pure(&self, incoming: &[String], mark: usize) -> (r: bool)
        ensures
            r == (self.frames().len() > 0 && all_arm_owned(
                self.frames().last(),
                mark as int,
                texts(incoming@),
                true,
            )),
    {
        let n = self.frames.len();
        if n == 0 {
            return false;
        }
        Self::all_arms_own(&self.frames[n - 1], mark, incoming, true)
    }

    /// Whether `name` is one of `xs`.
    fn listed(xs: &[String], name: &str) -> (r: bool)
        ensures
            r == texts(xs@).contains(name@),
    {
        let mut i: usize = 0;
        while i < xs.len()
            invariant
                i <= xs@.len(),
                forall|k: int| 0 <= k < i ==> xs@[k]@ != name@,
            decreases xs@.len() - i,
        {
            if str_eq(xs[i].as_str(), name) {
                assert(texts(xs@)[i as int] == name@);
                return true;
            }
            i = i + 1;
        }
        assert(!texts(xs@).contains(name@)) by {
            if texts(xs@).contains(name@) {
                let k = choose|k: int| 0 <= k < texts(xs@).len() && texts(xs@)[k] == name@;
                assert(xs@[k]@ == name@);
            }
        }
        false
    }

    /// The phi ownership merge at the join of a `match`: when every incoming
    /// value has an unnamed owner registered in the innermost frame after
    /// `mark` (inside its own arm), drop those owners from that part of the
    /// frame and answer whether all of them were pure-scalar; the merged
    /// value is then to be owned (and marked pure when they were) in their
    /// place. `None`, with nothing changed, otherwise.
    pub fn move_phi_owners(&mut self, incoming: &[String], mark: usize) -> (r: Option<bool>)
        ensures
            final(self).floors() == old(self).floors(),
            ({
                let fr = old(self).frames();
                let inc = texts(incoming@);
                if fr.len() > 0 && all_arm_owned(fr.last(), mark as int, inc, false) {
                    let f = fr.last();
                    let cut = if mark < f.len() {
                        mark as int
                    } else {
                        f.len() as int
                    };
                    &&& final(self).frames() == fr.update(
                        fr.len() - 1,
                        f.subrange(0, cut) + unconsumed(f.subrange(cut, f.len() as int), inc),
                    )
                    &&& r == Some(all_arm_owned(f, mark as int, inc, true))
                } else {
                    final(self).frames() == fr && r is None
                }
            }),
            r is None ==> *final(self) == *old(self),
    {
        let n = self.frames.len();
        if n == 0 {
            return None;
        }
        if !Self::all_arms_own(&self.frames[n - 1], mark, incoming, false) {
            return None;
        }
        let all_pure = Self::all_arms_own(&self.frames[n - 1], mark, incoming, true);
        let ghost fr = self.frames();
        let ghost inc = texts(incoming@);
        let ghost fv = fr.last();
        let mut f = self.frames.pop().unwrap();
        assert(frame_view(f@) == fv);
        let len = f.len();
        let cut = if mark < len {
            mark
        } else {
            len
        };
        let ghost tail = fv.subrange(cut as int, len as int);
        let mut rev: Vec<Entry> = Vec::new();
        while f.len() > cut
            invariant
                cut <= f@.len() <= len,
                len == fv.len(),
                frame_view(f@) == fv.subrange(0, f@.len() as int),
                rev@.len() == len - f@.len(),
                forall|i: int|
                    0 <= i < rev@.len() ==> owner_of(#[trigger] rev@[i]) == fv[len - 1 - i],
            decreases f@.len(),
        {
            let ghost f0 = f@;
            let e = f.pop().unwrap();
            assert(owner_of(e) == frame_view(f0)[f0.len() - 1]);
            rev.push(e);
            assert(frame_view(f@) =~= fv.subrange(0, f@.len() as int));
        }
        assert(frame_view(f@) =~= fv.subrange(0, cut as int) + unconsumed(tail.subrange(0, 0), inc));
        while rev.len() > 0
            invariant
                tail == fv.subrange(cut as int, len as int),
                len == fv.len(),
                cut <= len,
                rev@.len() <= tail.len(),
                forall|i: int|
                    0 <= i < rev@.len() ==> owner_of(#[trigger] rev@[i]) == fv[len - 1 - i],
                frame_view(f@) == fv.subrange(0, cut as int) + unconsumed(
                    tail.subrange(0, tail.len() - rev@.len()),
                    inc,
                ),
                inc == texts(incoming@),
            decreases rev@.len(),
        {
            let ghost j = tail.len() - rev@.len();
            let ghost f0 = frame_view(f@);
            let e = rev.pop().unwrap();
            assert(owner_of(e) == tail[j]);
            assert(tail.subrange(0, j + 1).drop_last() =~= tail.subrange(0, j));
            let keep = !(e.name.is_none() && Self::listed(incoming, e.operand.as_str()));
            if keep {
                f.push(e);
                assert(frame_view(f@) =~= f0.push(tail[j]));
            }
            assert(frame_view(f@) =~= fv.subrange(0, cut as int) + unconsumed(
                tail.subrange(0, j + 1),
                inc,
            ));
        }
        assert(tail.subrange(0, tail.len() as int) =~= tail);
        self.frames.push(f);
        assert(self.frames() =~= fr.update(
            fr.len() - 1,
            fv.subrange(0, cut as int) + unconsumed(tail, inc),
        ));
        Some(all_pure)
    }

    /// Remove the owner of `operand` from whichever open region holds it:
    /// the newest such owner of the outermost frame holding one. False when
    /// the value is a borrow the function never owned.
    pub fn take_owner_anywhere(&mut self, operand: &str) -> (r: bool)
        ensures
            final(self).floors() == old(self).floors(),
            r == (holder(old(self).frames(), operand@) >= 0),
            final(self).frames() == without_owner(old(self).frames(), operand@),
    {
        let ghost fr = self.frames();
        let n = self.frames.len();
        let mut j: usize = 0;
        assert(fr.skip(0) =~= fr);
        while j < n
            invariant
                n == fr.len(),
                fr == self.frames(),
                fr == old(self).frames(),
                self.floors() == old(self).floors(),
                j <= n,
                holder(fr, operand@) == (if holder(fr.skip(j as int), operand@) < 0 {
                    -1
                } else {
                    holder(fr.skip(j as int), operand@) + j
                }),
            decreases n - j,
        {
            proof {
                assert(fr.skip(j as int)[0] == fr[j as int]);
                assert(fr.skip(j as int).drop_first() =~= fr.skip(j + 1));
                assert(fr[j as int] == frame_view(self.frames@[j as int]@));
            }
            match Self::find_newest(&self.frames[j], operand, false) {
                Some(k) => {
                    proof {
                        lemma_newest_found(fr[j as int], operand@);
                        assert(holder(fr.skip(j as int), operand@) == 0);
                        assert(holder(fr, operand@) == j);
                    }
                    let ghost l0 = self.frames@[j as int]@;
                    let _ = self.frames[j].remove(k);
                    assert(frame_view(self.frames@[j as int]@) =~= frame_view(l0).remove(k as int));
                    assert(self.frames() =~= without_owner(fr, operand@));
                    return true;
                },
                None => {},
            }
            j = j + 1;
        }
        assert(fr.skip(j as int) =~= Seq::<Seq<Owner>>::empty());
        assert(without_owner(fr, operand@) == fr);
        false
    }

    /// The function epilogue at its single `ret`. When the returned value
    /// `ret` (a managed one) is owned here, its owner moves out to the
    /// caller; otherwise it is to be retained (the first result). Every
    /// remaining owner of every frame is handed back for release, innermost
    /// frame first and newest first, and the ledger is left with one empty
    /// frame.
    pub fn epilogue(&mut self, ret: Option<&str>) -> (r: (bool, Vec<String>))
        ensures
            final(self).floors() == old(self).floors(),
            final(self).frames() == seq![Seq::<Owner>::empty()],
            match ret {
                Some(op) => {
                    &&& r.0 == (holder(old(self).frames(), op@) < 0)
                    &&& texts(r.1@) == release_all(without_owner(old(self).frames(), op@))
                },
                None => !r.0 && texts(r.1@) == release_all(old(self).frames()),
            },
    {
        let retain = match ret {
            Some(op) => !self.take_owner_anywhere(op),
            None => false,
        };
        let ghost fr = self.frames();
        let mut out: Vec<String> = Vec::new();
        let mut j: usize = self.frames.len();
        assert(fr.subrange(0, j as int) =~= fr);
        while j > 0
            invariant
                j <= fr.len(),
                fr == self.frames(),
                texts(out@) + release_all(fr.subrange(0, j as int)) == release_all(fr),
            decreases j,
        {
            proof {
                assert(fr.subrange(0, j as int).drop_last() =~= fr.subrange(0, j - 1));
                assert(fr.subrange(0, j as int).last() == frame_view(self.frames@[j - 1]@));
            }
            let ghost o0 = out@;
            let mut slots = Self::release_slots(&self.frames[j - 1]);
            let ghost s0 = slots@;
            out.append(&mut slots);
            proof {
                assert(texts(out@) =~= texts(o0) + texts(s0));
            }
            j = j - 1;
            assert(texts(out@) + release_all(fr.subrange(0, j as int)) =~= release_all(fr));
        }
        assert(fr.subrange(0, 0) =~= Seq::<Seq<Owner>>::empty());
        assert(texts(out@) =~= release_all(fr));
        let mut frames: Vec<Vec<Entry>> = Vec::new();
        frames.push(Vec::new());
        self.frames = frames;
        assert(frame_view(self.frames@[0]@) =~= Seq::<Owner>::empty());
        assert(self.frames() =~= seq![Seq::<Owner>::empty()]);
        (retain, out)
    }

    /// Drop the owners of the function's frame that were bound in lexical
    /// scope `scope` to a name outside `live`: they are removed, the others
    /// kept in order, and their slots handed back, newest first, for release.
    pub fn release_dead(&mut self, live: &NameSet, scope: Option<usize>) -> (r: Vec<String>)
        requires
            live.wf(),
        ensures
            final(self).floors() == old(self).floors(),
            old(self).frames().len() > 0 ==> {
                let f = old(self).frames()[0];
                &&& final(self).frames() == old(self).frames().update(
                    0,
                    live_owners(f, live.set(), scope),
                )
                &&& texts(r@) == release_order(dead_owners(f, live.set(), scope))
            },
            old(self).frames().len() == 0 ==> *final(self) == *old(self) && r@.len() == 0,
    {
        if self.frames.len() == 0 {
            return Vec::new();
        }
        let ghost fr = self.frames();
        let ghost fv = fr[0];
        let ghost lv = live.set();
        let mut f: Vec<Entry> = Vec::new();
        std::mem::swap(&mut f, &mut self.frames[0]);
        assert(frame_view(f@) == fv);
        let len = f.len();
        let mut rev: Vec<Entry> = Vec::new();
        while f.len() > 0
            invariant
                f@.len() <= len,
                len == fv.len(),
                frame_view(f@) == fv.subrange(0, f@.len() as int),
                rev@.len() == len - f@.len(),
                forall|i: int|
                    0 <= i < rev@.len() ==> owner_of(#[trigger] rev@[i]) == fv[len - 1 - i],
            decreases f@.len(),
        {
            let ghost f0 = f@;
            let e = f.pop().unwrap();
            assert(owner_of(e) == frame_view(f0)[f0.len() - 1]);
            rev.push(e);
            assert(frame_view(f@) =~= fv.subrange(0, f@.len() as int));
        }
        let mut kept: Vec<Entry> = Vec::new();
        let mut dead: Vec<Entry> = Vec::new();
        assert(frame_view(kept@) =~= live_owners(fv.subrange(0, 0), lv, scope));
        assert(frame_view(dead@) =~= dead_owners(fv.subrange(0, 0), lv, scope));
        while rev.len() > 0
            invariant
                len == fv.len(),
                rev@.len() <= len,
                lv == live.set(),
                live.wf(),
                forall|i: int|
                    0 <= i < rev@.len() ==> owner_of(#[trigger] rev@[i]) == fv[len - 1 - i],
                frame_view(kept@) == live_owners(fv.subrange(0, len - rev@.len()), lv, scope),
                frame_view(dead@) == dead_owners(fv.subrange(0, len - rev@.len()), lv, scope),
            decreases rev@.len(),
        {
            let ghost j = len - rev@.len();
            let ghost k0 = frame_view(kept@);
            let ghost d0 = frame_view(dead@);
            let e = rev.pop().unwrap();
            assert(owner_of(e) == fv[j]);
            assert(fv.subrange(0, j + 1).drop_last() =~= fv.subrange(0, j));
            let is_dead = match &e.name {
                Some(n) => e.binding_scope == scope && !live.contains(n.as_str()),
                None => false,
            };
            if is_dead {
                dead.push(e);
                assert(frame_view(dead@) =~= d0.push(fv[j]));
            } else {
                kept.push(e);
                assert(frame_view(kept@) =~= k0.push(fv[j]));
            }
        }
        assert(fv.subrange(0, len as int) =~= fv);
        self.frames[0] = kept;
        assert(self.frames() =~= fr.update(0, live_owners(fv, lv, scope)));
        Self::release_slots(&dead)
    }

    /// The names of the named owners of the function's frame, in order.
    pub fn owner_names(&self) -> (r: Vec<String>)
        ensures
            self.frames().len() > 0 ==> texts(r@) == owner_names_of(self.frames()[0]),
            self.frames().len() == 0 ==> r@.len() == 0,
    {
        let mut r: Vec<String> = Vec::new();
        if self.frames.len() == 0 {
            return r;
        }
        let ghost fv = self.frames()[0];
        let f = &self.frames[0];
        assert(fv == frame_view(f@));
        let mut i: usize = 0;
        assert(texts(r@) =~= owner_names_of(fv.subrange(0, 0)));
        while i < f.len()
            invariant
                i <= f@.len(),
                fv == frame_view(f@),
                texts(r@) == owner_names_of(fv.subrange(0, i as int)),
            decreases f@.len() - i,
        {
            assert(fv.subrange(0, i + 1).drop_last() =~= fv.subrange(0, i as int));
            assert(fv.subrange(0, i + 1).last() == owner_of(f@[i as int]));
            match &f[i].name {
                Some(n) => {
                    let ghost r0 = r@;
                    r.push(n.clone());
                    assert(texts(r@) =~= texts(r0).push(n@));
                },
                None => {},
            }
            i = i + 1;
        }
        assert(fv.subrange(0, i as int) =~= fv);
        r
    }

    /// The innermost frame's current length: the mark a `match` takes before
    /// generating its arms.
    pub fn frame_mark(&self) -> (r: usize)
        ensures
            r == (if self.frames().len() > 0 {
                self.frames().last().len()
            } else {
                0
            }),
    {
        let n = self.frames.len();
        if n == 0 {
            0
        } else {
            self.frames[n - 1].len()
        }
    }

    /// Open a region: a statement or a loop body.
    pub fn push_frame(&mut self)
        ensures
            final(self).frames() == old(self).frames().push(Seq::empty()),
            final(self).floors() == old(self).floors(),
    {
        self.frames.push(Vec::new());
        assert(frame_view(self.frames@.last()@) =~= Seq::<Owner>::empty());
        assert(self.frames() =~= old(self).frames().push(Seq::empty()));
    }

    /// The slots of a frame, newest first.
    fn release_slots(f: &Vec<Entry>) -> (r: Vec<String>)
        ensures
            texts(r@) == release_order(frame_view(f@)),
    {
        let ghost fv = frame_view(f@);
        let mut r: Vec<String> = Vec::new();
        let mut k: usize = f.len();
        assert(fv.subrange(0, k as int) =~= fv);
        assert(texts(r@) + release_order(fv.subrange(0, k as int)) =~= release_order(fv));
        while k > 0
            invariant
                k <= f@.len(),
                fv == frame_view(f@),
                texts(r@) + release_order(fv.subrange(0, k as int)) == release_order(fv),
            decreases k,
        {
            proof {
                assert(fv.subrange(0, k as int).drop_last() =~= fv.subrange(0, k - 1));
                assert(fv.subrange(0, k as int).last() == owner_of(f@[k - 1]));
            }
            let ghost r0 = r@;
            r.push(f[k - 1].slot.clone());
            k = k - 1;
            proof {
                assert(texts(r@) =~= texts(r0).push(f@[k as int].slot@));
                assert(texts(r@) + release_order(fv.subrange(0, k as int)) =~= release_order(fv));
            }
        }
        assert(fv.subrange(0, 0) =~= Seq::<Owner>::empty());
        assert(texts(r@) =~= release_order(fv));
        r
    }

    /// Close the innermost region, handing back every slot it still owns,
    /// newest first, to be released; nothing when no region is open.
    pub fn pop_frame(&mut self) -> (r: Vec<String>)
        ensures
            final(self).floors() == old(self).floors(),
            old(self).frames().len() > 0 ==> final(self).frames() == old(self).frames().drop_last()
                && texts(r@) == release_order(old(self).frames().last()),
            old(self).frames().len() == 0 ==> *final(self) == *old(self) && r@.len() == 0,
    {
        if self.frames.len() == 0 {
            return Vec::new();
        }
        match self.frames.pop() {
            Some(frame) => {
                assert(self.frames() =~= old(self).frames().drop_last());
                Self::release_slots(&frame)
            },
            None => Vec::new(),
        }
    }

    /// The slots the innermost region owns, newest first, for an edge that
    /// leaves the region early without closing it: the frame stays open.
    pub fn drop_frame_inline(&self) -> (r: Vec<String>)
        ensures
            self.frames().len() > 0 ==> texts(r@) == release_order(self.frames().last()),
            self.frames().len() == 0 ==> r@.len() == 0,
    {
        let n = self.frames.len();
        if n == 0 {
            Vec::new()
        } else {
            Self::release_slots(&self.frames[n - 1])
        }
    }
}

impl Default for ArcLedger {
    /// A fresh ledger.
    fn default() -> (r: ArcLedger)
        ensures
            r.frames() == seq![Seq::<Owner>::empty()],
            r.floors() == Seq::<(usize, usize)>::empty(),
    {
        ArcLedger::new()
    }
}

/// The retain hook: a dup.
pub const RETAIN_DECL: &'static str = "declare void @osp_retain(i8*)";

/// The release hook: a drop.
pub const RELEASE_DECL: &'static str = "declare void @osp_release(i8*)";

/// The proved-unique drop, paired with the allocation hooks (same allocation
/// family) so an optimiser may delete a non-escaping allocation and release
/// outright. Sound only where the count is proved to be one.
pub const RELEASE_UNIQUE_DECL: &'static str = "declare void @osp_release_unique(i8* allocptr noundef) allockind(\"free\") mustprogress nounwind willreturn \"alloc-family\"=\"osprey\"";

/// Whether `v` is a managed candidate in emitter state `s`: a
/// register-carried heap handle or string that does not point into a private
/// constant.
pub open spec fn managed_in(s: Emission, v: Value) -> bool {
    &&& v.ty.managed()
    &&& has_prefix(v.operand@, "%"@)
    &&& !s.rodata.contains(v.operand@)
}

/// The type `v`'s operand is spelled with: the raw `{ i64, i8* }*` header of
/// a flat list literal (owner tag starting `[]`), else the type it travels
/// as.
pub open spec fn carried_ty(v: Value) -> Seq<char> {
    if v.osp_ty is Some && has_prefix(v.osp_ty->0@, "[]"@) {
        "{ i64, i8* }*"@
    } else {
        v.travels_as()
    }
}

/// The instructions that make `v` a plain `i8*`, the first register free
/// being `n`: none when it already is one, else one `bitcast`.
pub open spec fn ptr_bodies(v: Value, n: nat) -> Seq<Seq<char>> {
    if carried_ty(v) == "i8*"@ {
        Seq::empty()
    } else {
        seq![register(n) + " = "@ + "bitcast "@ + carried_ty(v) + " "@ + v.operand@ + " to i8*"@]
    }
}

/// The registers [`ptr_bodies`] draws.
pub open spec fn ptr_regs(v: Value) -> nat {
    if carried_ty(v) == "i8*"@ {
        0
    } else {
        1
    }
}

/// The `i8*` operand [`ptr_bodies`] leaves `v` in.
pub open spec fn ptr_of(v: Value, n: nat) -> Seq<char> {
    if carried_ty(v) == "i8*"@ {
        v.operand@
    } else {
        register(n)
    }
}

/// The instructions that retain `v`.
pub open spec fn retain_bodies(v: Value, n: nat) -> Seq<Seq<char>> {
    ptr_bodies(v, n).push("call void @osp_retain(i8* "@ + ptr_of(v, n) + ")"@)
}

/// The instructions that release the values spilled to `slots`, in order,
/// re-nulling each slot; the first register free being `n`.
pub open spec fn release_bodies(slots: Seq<Seq<char>>, n: nat) -> Seq<Seq<char>>
    decreases slots.len(),
{
    if slots.len() == 0 {
        Seq::empty()
    } else {
        let k = (slots.len() - 1) as nat;
        release_bodies(slots.drop_last(), n) + seq![
            register(n + k) + " = "@ + "load i8*, i8** "@ + slots.last(),
            "call void @osp_release(i8* "@ + register(n + k) + ")"@,
            "store i8* null, i8** "@ + slots.last(),
        ]
    }
}

/// The entry block with a null-initialised spill slot `slot` hoisted right
/// after its label.
pub open spec fn hoisted(lines: Seq<Seq<char>>, slot: Seq<char>) -> Seq<Seq<char>> {
    lines.insert(1, "  "@ + slot + " = alloca i8*"@).insert(2, "  store i8* null, i8** "@ + slot)
}

/// The name of the `k`-th spill slot.
pub open spec fn slot_name(k: nat) -> Seq<char> {
    "%arc.s"@ + decimal(k)
}

/// The release bodies of `j` slots followed by one more.
proof fn lemma_release_push(slots: Seq<Seq<char>>, n: nat, j: int)
    requires
        0 <= j < slots.len(),
    ensures
        release_bodies(slots.subrange(0, j + 1), n) == release_bodies(slots.subrange(0, j), n) + seq![
            register((n + j) as nat) + " = "@ + "load i8*, i8** "@ + slots[j],
            "call void @osp_release(i8* "@ + register((n + j) as nat) + ")"@,
            "store i8* null, i8** "@ + slots[j],
        ],
{
    assert(slots.subrange(0, j + 1).drop_last() =~= slots.subrange(0, j));
}

/// The length of [`release_bodies`].
proof fn lemma_release_len(slots: Seq<Seq<char>>, n: nat)
    ensures
        release_bodies(slots, n).len() == 3 * slots.len(),
    decreases slots.len(),
{
    if slots.len() > 0 {
        lemma_release_len(slots.drop_last(), n);
    }
}

/// `v`'s operand as a plain `i8*`, bitcasting a typed block pointer.
pub fn as_i8ptr(cg: &mut Codegen, v: &Value) -> (r: String)
    requires
        old(cg).wf(),
        old(cg).state().regs < usize::MAX,
        old(cg).debug_fits(1),
    ensures
        r@ == ptr_of(*v, old(cg).state().regs as nat),
        emitted(*old(cg), *final(cg), ptr_bodies(*v, old(cg).state().regs as nat), ptr_regs(*v)),
        same_externs(*old(cg), *final(cg)),
{
    let flat = match &v.osp_ty {
        Some(o) => starts_with(o.as_str(), "[]"),
        None => false,
    };
    let spelled = if flat {
        owned("{ i64, i8* }*")
    } else {
        v.llvm_ty()
    };
    if str_eq(spelled.as_str(), "i8*") {
        proof {
            lemma_emitted_none(*cg);
        }
        return v.operand.clone();
    }
    let mut rhs = owned("bitcast ");
    rhs.append(spelled.as_str());
    rhs.append(" ");
    rhs.append(v.operand.as_str());
    rhs.append(" to i8*");
    let r = cg.emit_reg(rhs.as_str());
    assert(seq![r@ + " = "@ + rhs@] =~~= ptr_bodies(*v, old(cg).state().regs as nat));
    r
}

/// Whether `v` is a managed candidate: a register-carried heap handle or
/// string that does not point into a private constant.
pub fn managed(cg: &Codegen, v: &Value) -> (r: bool)
    requires
        cg.wf(),
    ensures
        r == managed_in(cg.state(), *v),
{
    v.ty.is_managed_ptr() && starts_with(v.operand.as_str(), "%") && !cg.is_rodata(v.operand.as_str())
}

/// Spill `v` to a fresh entry-block slot and answer the slot; the slot is
/// hoisted first, which leaves the emitted text as if it came after the
/// conversion.
fn spill(cg: &mut Codegen, v: &Value) -> (slot: String)
    requires
        old(cg).wf(),
        old(cg).state().lines.len() >= 1,
        old(cg).state().slots < usize::MAX,
        old(cg).state().regs < usize::MAX,
        old(cg).debug_fits(2),
    ensures
        final(cg).wf(),
        slot@ == slot_name(old(cg).state().slots as nat),
        ({
            let n = old(cg).state().regs as nat;
            let d = old(cg).debug();
            let bodies = ptr_bodies(*v, n).push("store i8* "@ + ptr_of(*v, n) + ", i8** "@ + slot@);
            &&& final(cg).state() == (Emission {
                regs: (n + ptr_regs(*v)) as usize,
                slots: (old(cg).state().slots + 1) as usize,
                lines: hoisted(old(cg).state().lines, slot@) + located_lines(bodies, d),
                ..old(cg).state()
            })
            &&& located_n(d, final(cg).debug(), bodies.len())
            &&& final(cg).coverage() == old(cg).coverage()
        }),
{
    let slot = cg.hoist_arc_slot();
    let ghost c1 = *cg;
    let ptr = as_i8ptr(cg, v);
    let ghost c2 = *cg;
    let mut store = owned("store i8* ");
    store.append(ptr.as_str());
    store.append(", i8** ");
    store.append(slot.as_str());
    cg.emit(store.as_str());
    proof {
        let n = old(cg).state().regs as nat;
        lemma_emitted_trans(c1, c2, *cg, ptr_bodies(*v, n), ptr_regs(*v), seq![store@], 0);
        assert(ptr_bodies(*v, n) + seq![store@] =~= ptr_bodies(*v, n).push(
            "store i8* "@ + ptr_of(*v, n) + ", i8** "@ + slot@,
        ));
    }
    slot
}

/// `after` is `before` with `v` registered as owned by the innermost open
/// region: spilled to a fresh slot hoisted into the entry block and recorded
/// as a fresh owner; `after` is `before` when `v` is not a managed candidate.
pub open spec fn owns(before: Codegen, after: Codegen, v: Value) -> bool {
    &&& after.wf()
    &&& !managed_in(before.state(), v) ==> unchanged(before, after)
    &&& managed_in(before.state(), v) ==> {
        let n = before.state().regs as nat;
        let d = before.debug();
        let slot = slot_name(before.state().slots as nat);
        let bodies = ptr_bodies(v, n).push("store i8* "@ + ptr_of(v, n) + ", i8** "@ + slot);
        let fr = before.state().arc.frames();
        &&& after.state() == (Emission {
            regs: (n + ptr_regs(v)) as usize,
            slots: (before.state().slots + 1) as usize,
            lines: hoisted(before.state().lines, slot) + located_lines(bodies, d),
            arc: after.state().arc,
            ..before.state()
        })
        &&& after.state().arc.floors() == before.state().arc.floors()
        &&& fr.len() > 0 ==> after.state().arc.frames() == fr.update(
            fr.len() - 1,
            fr.last().push(fresh_owner(v.operand@, slot)),
        )
        &&& fr.len() == 0 ==> after.state().arc.frames() == fr
        &&& located_n(d, after.debug(), bodies.len())
        &&& after.coverage() == before.coverage()
    }
}

/// Owning a value draws at most one register and one spill slot, and
/// locates at most two instructions.
pub proof fn lemma_owns_grows(before: Codegen, after: Codegen, v: Value)
    requires
        before.wf(),
        before.state().lines.len() >= 1,
        before.state().regs < usize::MAX,
        before.state().slots < usize::MAX,
        owns(before, after, v),
    ensures
        grows(before, after, 2),
{
    lemma_wf_debug(before);
    if managed_in(before.state(), v) {
        let n = before.state().regs as nat;
        let slot = slot_name(before.state().slots as nat);
        let bodies = ptr_bodies(v, n).push("store i8* "@ + ptr_of(v, n) + ", i8** "@ + slot);
        assert(bodies.len() <= 2);
        assert(hoisted(before.state().lines, slot).len() == before.state().lines.len() + 2);
    }
}

/// Owning a value depends only on its operand, its type and the type it is
/// spelled with.
pub proof fn lemma_owns_retag(before: Codegen, after: Codegen, v: Value, w: Value)
    requires
        owns(before, after, v),
        w.operand@ == v.operand@,
        w.ty == v.ty,
        carried_ty(w) == carried_ty(v),
    ensures
        owns(before, after, w),
{
}

/// Register `v` as owned (+1) by the innermost open region: spill it to a
/// fresh slot and record it. Nothing for a value that is not a managed
/// candidate.
pub fn own(cg: &mut Codegen, v: &Value)
    requires
        old(cg).wf(),
        old(cg).state().lines.len() >= 1,
        old(cg).state().slots < usize::MAX,
        old(cg).state().regs < usize::MAX,
        old(cg).debug_fits(2),
    ensures
        owns(*old(cg), *final(cg), *v),
{
    if !managed(cg, v) {
        return;
    }
    let slot = spill(cg, v);
    cg.ledger_mut().own(v.operand.as_str(), slot.as_str());
}

/// The innermost frame's current owner count: the mark a branch takes
/// before generating its arms, so the join can tell the owners they produced
/// from values that already existed.
pub fn frame_mark(cg: &Codegen) -> (r: usize)
    ensures
        r == (if cg.state().arc.frames().len() > 0 {
            cg.state().arc.frames().last().len()
        } else {
            0
        }),
{
    cg.ledger().frame_mark()
}

/// Record that the code generated from here on runs on one path out of the
/// region only, with `mark` owners of the innermost frame already live.
pub fn open_conditional(cg: &mut Codegen, mark: usize)
    ensures
        final(cg).state() == (Emission { arc: final(cg).state().arc, ..old(cg).state() }),
        final(cg).state().arc.frames() == old(cg).state().arc.frames(),
        final(cg).state().arc.floors() == old(cg).state().arc.floors().push(
            (old(cg).state().arc.frames().len() as usize, mark),
        ),
        final(cg).wf() == old(cg).wf(),
        final(cg).debug() == old(cg).debug(),
        final(cg).coverage() == old(cg).coverage(),
{
    cg.ledger_mut().open_conditional(mark);
}

/// Both paths have merged: the owners from before the branch are
/// unconditional again.
pub fn close_conditional(cg: &mut Codegen)
    ensures
        final(cg).state() == (Emission { arc: final(cg).state().arc, ..old(cg).state() }),
        final(cg).state().arc.frames() == old(cg).state().arc.frames(),
        old(cg).state().arc.floors().len() > 0 ==> final(cg).state().arc.floors()
            == old(cg).state().arc.floors().drop_last(),
        old(cg).state().arc.floors().len() == 0 ==> final(cg).state().arc.floors()
            == old(cg).state().arc.floors(),
        final(cg).wf() == old(cg).wf(),
        final(cg).debug() == old(cg).debug(),
        final(cg).coverage() == old(cg).coverage(),
{
    cg.ledger_mut().close_conditional();
}

/// [`own`] a value and answer it.
pub fn own_value(cg: &mut Codegen, v: Value) -> (r: Value)
    requires
        old(cg).wf(),
        old(cg).state().lines.len() >= 1,
        old(cg).state().slots < usize::MAX,
        old(cg).state().regs < usize::MAX,
        old(cg).debug_fits(2),
    ensures
        r == v,
        owns(*old(cg), *final(cg), v),
{
    own(cg, &v);
    v
}

/// [`own`], but in the region that outlives the closing statement: the
/// frame beneath the innermost, or the innermost when it is the only one.
pub fn own_beyond_stmt(cg: &mut Codegen, v: &Value)
    requires
        old(cg).wf(),
        old(cg).state().arc.frames().len() > 0,
        old(cg).state().lines.len() >= 1,
        old(cg).state().slots < usize::MAX,
        old(cg).state().regs < usize::MAX,
        old(cg).debug_fits(2),
    ensures
        final(cg).wf(),
        !managed_in(old(cg).state(), *v) ==> unchanged(*old(cg), *final(cg)),
        managed_in(old(cg).state(), *v) ==> {
            let n = old(cg).state().regs as nat;
            let d = old(cg).debug();
            let slot = slot_name(old(cg).state().slots as nat);
            let bodies = ptr_bodies(*v, n).push("store i8* "@ + ptr_of(*v, n) + ", i8** "@ + slot);
            let fr = old(cg).state().arc.frames();
            let p = parent_index(fr.len() as int);
            &&& final(cg).state() == (Emission {
                regs: (n + ptr_regs(*v)) as usize,
                slots: (old(cg).state().slots + 1) as usize,
                lines: hoisted(old(cg).state().lines, slot) + located_lines(bodies, d),
                arc: final(cg).state().arc,
                ..old(cg).state()
            })
            &&& final(cg).state().arc.floors() == old(cg).state().arc.floors()
            &&& final(cg).state().arc.frames() == fr.update(p, fr[p].push(fresh_owner(v.operand@, slot)))
            &&& located_n(d, final(cg).debug(), bodies.len())
            &&& final(cg).coverage() == old(cg).coverage()
        },
{
    if !managed(cg, v) {
        return;
    }
    let slot = spill(cg, v);
    cg.ledger_mut().own_beyond_stmt(v.operand.as_str(), slot.as_str());
}

/// Emit the release of each value spilled to `slots`, in order, re-nulling
/// each slot (loop bodies reuse slots across iterations).
pub fn release_entries(cg: &mut Codegen, slots: &[String])
    requires
        old(cg).wf(),
        old(cg).state().regs + slots@.len() <= usize::MAX,
        old(cg).debug_fits(3 * slots@.len()),
    ensures
        emitted(*old(cg), *final(cg), release_bodies(texts(slots@), old(cg).state().regs as nat), slots@.len()),
        slots@.len() == 0 ==> same_externs(*old(cg), *final(cg)),
        slots@.len() > 0 ==> declares(*old(cg), *final(cg), RELEASE_DECL@),
{
    let ghost c0 = *cg;
    let ghost n = old(cg).state().regs as nat;
    let ghost ss = texts(slots@);
    proof {
        lemma_emitted_none(c0);
        assert(ss.subrange(0, 0) =~= Seq::<Seq<char>>::empty());
    }
    let mut i: usize = 0;
    while i < slots.len()
        invariant
            c0 == *old(cg),
            n == c0.state().regs as nat,
            ss == texts(slots@),
            i <= slots@.len(),
            c0.state().regs + slots@.len() <= usize::MAX,
            c0.debug_fits(3 * slots@.len()),
            emitted(c0, *cg, release_bodies(ss.subrange(0, i as int), n), i as nat),
            i == 0 ==> same_externs(c0, *cg),
            i > 0 ==> declares(c0, *cg, RELEASE_DECL@),
        decreases slots@.len() - i,
    {
        let ghost ci = *cg;
        proof {
            lemma_release_len(ss.subrange(0, i as int), n);
        }
        cg.add_extern(RELEASE_DECL);
        let ghost cd = *cg;
        let mut load = owned("load i8*, i8** ");
        load.append(slots[i].as_str());
        let live = cg.emit_reg(load.as_str());
        let ghost c1 = *cg;
        let mut call = owned("call void @osp_release(i8* ");
        call.append(live.as_str());
        call.append(")");
        cg.emit(call.as_str());
        let ghost c2 = *cg;
        let mut store = owned("store i8* null, i8** ");
        store.append(slots[i].as_str());
        cg.emit(store.as_str());
        proof {
            assert(cg.state().externs == cd.state().externs);
            assert(cd.state().externs.to_set() =~= c0.state().externs.to_set().insert(RELEASE_DECL@));
            let first = live@ + " = "@ + load@;
            assert(emitted(ci, cd, Seq::empty(), 0)) by {
                lemma_emitted_none(ci);
                assert(cd.state().lines =~= ci.state().lines + located_lines(Seq::empty(), ci.debug()));
            }
            lemma_emitted_trans(cd, c1, c2, seq![first], 1, seq![call@], 0);
            lemma_emitted_trans(cd, c2, *cg, seq![first] + seq![call@], 1, seq![store@], 0);
            lemma_emitted_trans(ci, cd, *cg, Seq::empty(), 0, seq![first] + seq![call@] + seq![store@], 1);
            lemma_emitted_trans(
                c0,
                ci,
                *cg,
                release_bodies(ss.subrange(0, i as int), n),
                i as nat,
                Seq::empty() + (seq![first] + seq![call@] + seq![store@]),
                1,
            );
            lemma_release_push(ss, n, i as int);
            assert(Seq::empty() + (seq![first] + seq![call@] + seq![store@]) =~~= seq![
                register((n + i) as nat) + " = "@ + "load i8*, i8** "@ + ss[i as int],
                "call void @osp_release(i8* "@ + register((n + i) as nat) + ")"@,
                "store i8* null, i8** "@ + ss[i as int],
            ]);
        }
        i = i + 1;
    }
    assert(ss.subrange(0, i as int) =~= ss);
}

/// `after` is `before` with the instructions `bodies` emitted in order,
/// drawing `regs` fresh registers, and its ledger updated; what it declares
/// and what became of the ledger are left to the caller to state.
pub open spec fn emitted_arc(before: Codegen, after: Codegen, bodies: Seq<Seq<char>>, regs: nat) -> bool {
    &&& after.wf()
    &&& after.state() == (Emission {
        externs: after.state().externs,
        regs: (before.state().regs + regs) as usize,
        lines: before.state().lines + located_lines(bodies, before.debug()),
        arc: after.state().arc,
        ..before.state()
    })
    &&& located_n(before.debug(), after.debug(), bodies.len())
    &&& after.coverage() == before.coverage()
}

/// Updating the ledger while emitting `b1`, then emitting `b2`, emits
/// `b1 + b2` with the ledger updated.
pub proof fn lemma_emitted_arc_trans(
    c0: Codegen,
    c1: Codegen,
    c2: Codegen,
    b1: Seq<Seq<char>>,
    k1: nat,
    b2: Seq<Seq<char>>,
    k2: nat,
)
    requires
        c0.state().regs + k1 + k2 <= usize::MAX,
        emitted_arc(c0, c1, b1, k1),
        emitted(c1, c2, b2, k2),
    ensures
        emitted_arc(c0, c2, b1 + b2, k1 + k2),
{
    lemma_located_concat(c0.debug(), c1.debug(), c2.debug(), b1.len(), b2.len());
    let d = c0.debug();
    assert(located_lines(b1 + b2, d) =~= located_lines(b1, d) + located_lines(b2, c1.debug())) by {
        assert forall|i: int| 0 <= i < b2.len() implies #[trigger] located_lines(b2, c1.debug())[i]
            == located_lines(b1 + b2, d)[b1.len() + i] by {
            assert(location_after(c1.debug(), i as nat) == location_after(d, b1.len() + i as nat));
        }
    }
    assert(c2.state().lines =~= c0.state().lines + located_lines(b1 + b2, d));
}

/// The number of owners the ledger holds across all its frames.
pub open spec fn owner_count(frames: Seq<Seq<Owner>>) -> nat {
    release_all(frames).len()
}

/// A region releases each of its owners once.
pub proof fn lemma_release_order_len(f: Seq<Owner>)
    ensures
        release_order(f).len() == f.len(),
    decreases f.len(),
{
    if f.len() > 0 {
        lemma_release_order_len(f.drop_last());
    }
}

/// Replacing one frame changes the owner count by the difference in size.
proof fn lemma_owner_count_update(fr: Seq<Seq<Owner>>, j: int, g: Seq<Owner>)
    requires
        0 <= j < fr.len(),
    ensures
        owner_count(fr.update(j, g)) + fr[j].len() == owner_count(fr) + g.len(),
    decreases fr.len(),
{
    lemma_release_order_len(g);
    lemma_release_order_len(fr[j]);
    lemma_release_order_len(fr.last());
    if j == fr.len() - 1 {
        assert(fr.update(j, g).drop_last() =~= fr.drop_last());
    } else {
        assert(fr.update(j, g).drop_last() =~= fr.drop_last().update(j, g));
        lemma_owner_count_update(fr.drop_last(), j, g);
    }
}

/// The epilogue's return transfer removes at most one owner.
proof fn lemma_without_owner_count(fr: Seq<Seq<Owner>>, operand: Seq<char>)
    ensures
        owner_count(without_owner(fr, operand)) <= owner_count(fr),
{
    let j = holder(fr, operand);
    if j >= 0 {
        lemma_holder_bounds(fr, operand);
        lemma_newest_bounds(fr[j], operand);
        lemma_owner_count_update(fr, j, fr[j].remove(newest(fr[j], operand)));
    }
}

/// A holder is a frame.
proof fn lemma_holder_bounds(fr: Seq<Seq<Owner>>, operand: Seq<char>)
    ensures
        holder(fr, operand) < fr.len(),
        holder(fr, operand) >= 0 ==> newest(fr[holder(fr, operand)], operand) >= 0,
    decreases fr.len(),
{
    if fr.len() > 0 && newest(fr[0], operand) < 0 {
        lemma_holder_bounds(fr.drop_first(), operand);
    }
}

/// The newest owner under an operand is an owner.
proof fn lemma_newest_bounds(f: Seq<Owner>, operand: Seq<char>)
    ensures
        newest(f, operand) < f.len(),
    decreases f.len(),
{
    if f.len() > 0 && f.last().operand != operand {
        lemma_newest_bounds(f.drop_last(), operand);
    }
}

/// Retire a fresh, never-bound, pure owner at its immediate unwrap: when the
/// ledger proves `v` retirable, release it through the proved-unique drop and
/// null its slot.
pub fn consume_fresh(cg: &mut Codegen, v: &Value)
    requires
        old(cg).wf(),
        old(cg).state().regs < usize::MAX,
        old(cg).debug_fits(3),
    ensures
        final(cg).wf(),
        ({
            let fr = old(cg).state().arc.frames();
            let n = old(cg).state().regs as nat;
            if retirable(fr, old(cg).state().arc.floors(), v.operand@) {
                &&& final(cg).state().arc.frames() == fr.update(fr.len() - 1, fr.last().drop_last())
                &&& final(cg).state().arc.floors() == old(cg).state().arc.floors()
                &&& emitted_arc(
                    *old(cg),
                    *final(cg),
                    ptr_bodies(*v, n) + seq![
                        "call void @osp_release_unique(i8* "@ + ptr_of(*v, n) + ")"@,
                        "store i8* null, i8** "@ + fr.last().last().slot,
                    ],
                    ptr_regs(*v),
                )
                &&& declares(*old(cg), *final(cg), RELEASE_UNIQUE_DECL@)
            } else {
                unchanged(*old(cg), *final(cg))
            }
        }),
{
    let slot = match cg.ledger_mut().consume_fresh(v.operand.as_str()) {
        Some(s) => s,
        None => {
            return;
        },
    };
    let ghost c1 = *cg;
    proof {
        lemma_emitted_none(c1);
    }
    cg.add_extern(RELEASE_UNIQUE_DECL);
    let ghost c2 = *cg;
    let ptr = as_i8ptr(cg, v);
    let ghost c3 = *cg;
    let mut call = owned("call void @osp_release_unique(i8* ");
    call.append(ptr.as_str());
    call.append(")");
    cg.emit(call.as_str());
    let ghost c4 = *cg;
    let mut store = owned("store i8* null, i8** ");
    store.append(slot.as_str());
    cg.emit(store.as_str());
    proof {
        let n = old(cg).state().regs as nat;
        assert(emitted(c1, c2, Seq::empty(), 0)) by {
            assert(c2.state().lines =~= c1.state().lines + located_lines(Seq::empty(), c1.debug()));
        }
        lemma_emitted_trans(c1, c2, c3, Seq::empty(), 0, ptr_bodies(*v, n), ptr_regs(*v));
        lemma_emitted_trans(c1, c3, c4, Seq::empty() + ptr_bodies(*v, n), ptr_regs(*v), seq![call@], 0);
        lemma_emitted_trans(
            c1,
            c4,
            *cg,
            Seq::empty() + ptr_bodies(*v, n) + seq![call@],
            ptr_regs(*v),
            seq![store@],
            0,
        );
        assert(Seq::empty() + ptr_bodies(*v, n) + seq![call@] + seq![store@] =~= ptr_bodies(*v, n)
            + seq![call@, store@]);
    }
}

/// Move a fresh, unnamed owner of the innermost region into a heap slot:
/// forget it and null its spill slot, answering whether there was one. The
/// store then needs no dup and the region no release.
pub fn consume_into_store(cg: &mut Codegen, operand: &str) -> (moved: bool)
    requires
        old(cg).wf(),
        old(cg).debug_fits(1),
    ensures
        final(cg).wf(),
        ({
            let fr = old(cg).state().arc.frames();
            if fr.len() > 0 && newest_unnamed(fr.last(), operand@) >= 0 {
                let k = newest_unnamed(fr.last(), operand@);
                &&& moved
                &&& final(cg).state().arc.frames() == fr.update(fr.len() - 1, fr.last().remove(k))
                &&& final(cg).state().arc.floors() == old(cg).state().arc.floors()
                &&& emitted_arc(*old(cg), *final(cg), seq!["store i8* null, i8** "@ + fr.last()[k].slot], 0)
                &&& same_externs(*old(cg), *final(cg))
            } else {
                !moved && unchanged(*old(cg), *final(cg))
            }
        }),
{
    match cg.ledger_mut().consume_into_store(operand) {
        Some(slot) => {
            let mut store = owned("store i8* null, i8** ");
            store.append(slot.as_str());
            cg.emit(store.as_str());
            true
        },
        None => false,
    }
}

/// Close the innermost region, releasing every owner it still holds, newest
/// first.
pub fn pop_frame(cg: &mut Codegen)
    requires
        old(cg).wf(),
        old(cg).state().arc.frames().len() > 0 ==> {
            let m = old(cg).state().arc.frames().last().len();
            &&& old(cg).state().regs + m <= usize::MAX
            &&& old(cg).debug_fits(3 * m)
        },
    ensures
        final(cg).wf(),
        ({
            let fr = old(cg).state().arc.frames();
            if fr.len() > 0 {
                let slots = release_order(fr.last());
                &&& final(cg).state().arc.frames() == fr.drop_last()
                &&& final(cg).state().arc.floors() == old(cg).state().arc.floors()
                &&& emitted_arc(
                    *old(cg),
                    *final(cg),
                    release_bodies(slots, old(cg).state().regs as nat),
                    slots.len(),
                )
                &&& slots.len() == 0 ==> same_externs(*old(cg), *final(cg))
                &&& slots.len() > 0 ==> declares(*old(cg), *final(cg), RELEASE_DECL@)
            } else {
                unchanged(*old(cg), *final(cg))
            }
        }),
{
    proof {
        if old(cg).state().arc.frames().len() > 0 {
            lemma_release_order_len(old(cg).state().arc.frames().last());
        }
    }
    let slots = cg.ledger_mut().pop_frame();
    if slots.len() == 0 {
        proof {
            lemma_emitted_none(*cg);
        }
        return;
    }
    release_entries(cg, slots.as_slice());
}

/// Release the innermost region's owners on an edge that leaves it early,
/// without closing it: the slots are re-nulled, so the fall-through release
/// of the same owners releases nothing twice.
pub fn drop_frame_inline(cg: &mut Codegen)
    requires
        old(cg).wf(),
        old(cg).state().arc.frames().len() > 0 ==> {
            let m = old(cg).state().arc.frames().last().len();
            &&& old(cg).state().regs + m <= usize::MAX
            &&& old(cg).debug_fits(3 * m)
        },
    ensures
        final(cg).wf(),
        ({
            let fr = old(cg).state().arc.frames();
            if fr.len() > 0 {
                let slots = release_order(fr.last());
                &&& emitted(*old(cg), *final(cg), release_bodies(slots, old(cg).state().regs as nat), slots.len())
                &&& slots.len() == 0 ==> same_externs(*old(cg), *final(cg))
                &&& slots.len() > 0 ==> declares(*old(cg), *final(cg), RELEASE_DECL@)
            } else {
                unchanged(*old(cg), *final(cg))
            }
        }),
{
    proof {
        if old(cg).state().arc.frames().len() > 0 {
            lemma_release_order_len(old(cg).state().arc.frames().last());
        }
    }
    let slots = cg.ledger().drop_frame_inline();
    if slots.len() == 0 {
        proof {
            lemma_emitted_none(*cg);
        }
        return;
    }
    release_entries(cg, slots.as_slice());
}

/// Release a raw `i8*` operand.
pub fn release_operand(cg: &mut Codegen, operand: &str)
    requires
        old(cg).wf(),
        old(cg).debug_fits(1),
    ensures
        emitted(*old(cg), *final(cg), seq!["call void @osp_release(i8* "@ + operand@ + ")"@], 0),
        declares(*old(cg), *final(cg), RELEASE_DECL@),
{
    cg.add_extern(RELEASE_DECL);
    let mut call = owned("call void @osp_release(i8* ");
    call.append(operand);
    call.append(")");
    cg.emit(call.as_str());
}

/// Retain (dup) `v` when it is a managed candidate.
pub fn retain_val(cg: &mut Codegen, v: &Value)
    requires
        old(cg).wf(),
        old(cg).state().regs < usize::MAX,
        old(cg).debug_fits(2),
    ensures
        final(cg).wf(),
        managed_in(old(cg).state(), *v) ==> {
            &&& emitted(*old(cg), *final(cg), retain_bodies(*v, old(cg).state().regs as nat), ptr_regs(*v))
            &&& declares(*old(cg), *final(cg), RETAIN_DECL@)
        },
        !managed_in(old(cg).state(), *v) ==> unchanged(*old(cg), *final(cg)),
{
    if !managed(cg, v) {
        return;
    }
    let ptr = as_i8ptr(cg, v);
    let ghost c1 = *cg;
    cg.add_extern(RETAIN_DECL);
    let ghost c2 = *cg;
    let mut call = owned("call void @osp_retain(i8* ");
    call.append(ptr.as_str());
    call.append(")");
    cg.emit(call.as_str());
    proof {
        let n = old(cg).state().regs as nat;
        assert(emitted(c1, c2, Seq::empty(), 0)) by {
            lemma_emitted_none(c1);
            assert(c2.state().lines =~= c1.state().lines + located_lines(Seq::empty(), c1.debug()));
        }
        lemma_emitted_trans(c1, c2, *cg, Seq::empty(), 0, seq![call@], 0);
        lemma_emitted_trans(*old(cg), c1, *cg, ptr_bodies(*v, n), ptr_regs(*v), Seq::empty() + seq![call@], 0);
        assert(ptr_bodies(*v, n) + (Seq::empty() + seq![call@]) =~= retain_bodies(*v, n));
    }
}

/// A managed value about to escape boxed as an `i64` across a boundary that
/// erases its pointer-ness: dup it, so the receiving side owns +1.
pub fn escape_retain(cg: &mut Codegen, v: &Value)
    requires
        old(cg).wf(),
        old(cg).state().regs < usize::MAX,
        old(cg).debug_fits(2),
    ensures
        final(cg).wf(),
        managed_in(old(cg).state(), *v) ==> {
            &&& emitted(*old(cg), *final(cg), retain_bodies(*v, old(cg).state().regs as nat), ptr_regs(*v))
            &&& declares(*old(cg), *final(cg), RETAIN_DECL@)
        },
        !managed_in(old(cg).state(), *v) ==> unchanged(*old(cg), *final(cg)),
{
    retain_val(cg, v);
}

/// The instructions that dup `operand` stored into a heap slot typed
/// `slot_ty`, the first register free being `n`.
pub open spec fn dup_bodies(slot_ty: Seq<char>, operand: Seq<char>, n: nat) -> Seq<Seq<char>> {
    if slot_ty == "i8*"@ {
        seq!["call void @osp_retain(i8* "@ + operand + ")"@]
    } else {
        seq![
            register(n) + " = "@ + "bitcast "@ + slot_ty + " "@ + operand + " to i8*"@,
            "call void @osp_retain(i8* "@ + register(n) + ")"@,
        ]
    }
}

/// Dup-on-store: retain `operand` when it is a register-carried pointer
/// stored into a heap slot typed `slot_ty` (the owning block's release of
/// that slot makes the store a new reference).
pub fn dup_store(cg: &mut Codegen, slot_ty: &str, operand: &str)
    requires
        old(cg).wf(),
        old(cg).state().regs < usize::MAX,
        old(cg).debug_fits(2),
    ensures
        final(cg).wf(),
        has_suffix(slot_ty@, "*"@) && has_prefix(operand@, "%"@) ==> {
            &&& emitted(
                *old(cg),
                *final(cg),
                dup_bodies(slot_ty@, operand@, old(cg).state().regs as nat),
                if slot_ty@ == "i8*"@ {
                    0
                } else {
                    1
                },
            )
            &&& declares(*old(cg), *final(cg), RETAIN_DECL@)
        },
        !(has_suffix(slot_ty@, "*"@) && has_prefix(operand@, "%"@)) ==> unchanged(*old(cg), *final(cg)),
{
    if !(ends_with(slot_ty, "*") && starts_with(operand, "%")) {
        return;
    }
    let ghost c0 = *cg;
    cg.add_extern(RETAIN_DECL);
    let ghost c1 = *cg;
    proof {
        lemma_emitted_none(c0);
        assert(emitted(c0, c1, Seq::empty(), 0)) by {
            assert(c1.state().lines =~= c0.state().lines + located_lines(Seq::empty(), c0.debug()));
        }
    }
    let ghost n = c0.state().regs as nat;
    let ptr = if str_eq(slot_ty, "i8*") {
        proof {
            lemma_emitted_none(c1);
        }
        owned(operand)
    } else {
        let mut rhs = owned("bitcast ");
        rhs.append(slot_ty);
        rhs.append(" ");
        rhs.append(operand);
        rhs.append(" to i8*");
        let r = cg.emit_reg(rhs.as_str());
        assert(seq![r@ + " = "@ + rhs@] =~~= seq![
            register(n) + " = "@ + "bitcast "@ + slot_ty@ + " "@ + operand@ + " to i8*"@,
        ]);
        r
    };
    let ghost c2 = *cg;
    let ghost k: nat = if slot_ty@ == "i8*"@ {
        0
    } else {
        1
    };
    let ghost first: Seq<Seq<char>> = if slot_ty@ == "i8*"@ {
        Seq::empty()
    } else {
        seq![register(n) + " = "@ + "bitcast "@ + slot_ty@ + " "@ + operand@ + " to i8*"@]
    };
    let mut call = owned("call void @osp_retain(i8* ");
    call.append(ptr.as_str());
    call.append(")");
    cg.emit(call.as_str());
    proof {
        lemma_emitted_trans(c1, c2, *cg, first, k, seq![call@], 0);
        lemma_emitted_trans(c0, c1, *cg, Seq::empty(), 0, first + seq![call@], k);
        assert(Seq::empty() + (first + seq![call@]) =~= dup_bodies(slot_ty@, operand@, n));
    }
}

/// The function epilogue at its single `ret`: a managed returned value moves
/// out of the ledger to the caller (+1), or is retained when the function
/// never owned it; then every owner of every region is released, innermost
/// region first, and the ledger is left with one empty region.
pub fn epilogue(cg: &mut Codegen, ret: Option<&Value>)
    requires
        old(cg).wf(),
        old(cg).state().regs + 1 + owner_count(old(cg).state().arc.frames()) <= usize::MAX,
        old(cg).debug_fits(2 + 3 * owner_count(old(cg).state().arc.frames())),
    ensures
        final(cg).wf(),
        ({
            let fr = old(cg).state().arc.frames();
            let n = old(cg).state().regs as nat;
            let v = *ret->0;
            let m = ret is Some && managed_in(old(cg).state(), v);
            let needs = m && holder(fr, v.operand@) < 0;
            let slots = release_all(
                if m {
                    without_owner(fr, v.operand@)
                } else {
                    fr
                },
            );
            let k = if needs {
                ptr_regs(v)
            } else {
                0
            };
            let first = if needs {
                retain_bodies(v, n)
            } else {
                Seq::empty()
            };
            &&& final(cg).state().arc.frames() == seq![Seq::<Owner>::empty()]
            &&& final(cg).state().arc.floors() == old(cg).state().arc.floors()
            &&& emitted_arc(*old(cg), *final(cg), first + release_bodies(slots, n + k), k + slots.len())
            &&& final(cg).state().externs.to_set() == old(cg).state().externs.to_set() + (if needs {
                set![RETAIN_DECL@]
            } else {
                Set::empty()
            }) + (if slots.len() > 0 {
                set![RELEASE_DECL@]
            } else {
                Set::empty()
            })
        }),
{
    let op: Option<&str> = match ret {
        Some(v) => if managed(cg, v) {
            Some(v.operand.as_str())
        } else {
            None
        },
        None => None,
    };
    proof {
        let fr = old(cg).state().arc.frames();
        if ret is Some {
            lemma_without_owner_count(fr, ret->0.operand@);
        }
    }
    let (needs, slots) = cg.ledger_mut().epilogue(op);
    let ghost c1 = *cg;
    let ghost n = c1.state().regs as nat;
    let ghost v = *ret->0;
    proof {
        lemma_emitted_none(c1);
    }
    if needs {
        match ret {
            Some(v) => retain_val(cg, v),
            None => {},
        }
    }
    let ghost c2 = *cg;
    let ghost k: nat = if needs {
        ptr_regs(v)
    } else {
        0
    };
    let ghost first: Seq<Seq<char>> = if needs {
        retain_bodies(v, n)
    } else {
        Seq::empty()
    };
    if slots.len() > 0 {
        release_entries(cg, slots.as_slice());
    } else {
        proof {
            lemma_emitted_none(c2);
        }
    }
    proof {
        lemma_emitted_trans(c1, c2, *cg, first, k, release_bodies(texts(slots@), n + k), slots@.len());
        let d1 = if needs {
            set![RETAIN_DECL@]
        } else {
            Set::empty()
        };
        let d2 = if slots@.len() > 0 {
            set![RELEASE_DECL@]
        } else {
            Set::empty()
        };
        assert(c2.state().externs.to_set() =~= old(cg).state().externs.to_set() + d1);
        assert(cg.state().externs.to_set() =~= old(cg).state().externs.to_set() + d1 + d2);
    }
}

/// Merge the owners of a `match`'s arms at its join: when every arm produced
/// a fresh owner after `mark`, the phi `out` is that one owner, so the arms'
/// entries are dropped and `out` is owned in their place (pure when they all
/// were). Nothing otherwise, nor when `out` is not managed.
pub fn move_phi_owners(cg: &mut Codegen, incoming: &[String], out: &Value, mark: usize)
    requires
        old(cg).wf(),
        old(cg).state().lines.len() >= 1,
        old(cg).state().slots < usize::MAX,
        old(cg).state().regs < usize::MAX,
        old(cg).debug_fits(2),
    ensures
        final(cg).wf(),
        ({
            let fr = old(cg).state().arc.frames();
            let inc = texts(incoming@);
            if managed_in(old(cg).state(), *out) && fr.len() > 0 && all_arm_owned(
                fr.last(),
                mark as int,
                inc,
                false,
            ) {
                let f = fr.last();
                let cut = if mark < f.len() {
                    mark as int
                } else {
                    f.len() as int
                };
                let kept = f.subrange(0, cut) + unconsumed(f.subrange(cut, f.len() as int), inc);
                let n = old(cg).state().regs as nat;
                let d = old(cg).debug();
                let slot = slot_name(old(cg).state().slots as nat);
                let bodies = ptr_bodies(*out, n).push("store i8* "@ + ptr_of(*out, n) + ", i8** "@ + slot);
                let o = Owner {
                    pure_scalar: all_arm_owned(f, mark as int, inc, true),
                    ..fresh_owner(out.operand@, slot)
                };
                &&& final(cg).state() == (Emission {
                    regs: (n + ptr_regs(*out)) as usize,
                    slots: (old(cg).state().slots + 1) as usize,
                    lines: hoisted(old(cg).state().lines, slot) + located_lines(bodies, d),
                    arc: final(cg).state().arc,
                    ..old(cg).state()
                })
                &&& final(cg).state().arc.floors() == old(cg).state().arc.floors()
                &&& final(cg).state().arc.frames() == fr.update(fr.len() - 1, kept.push(o))
                &&& located_n(d, final(cg).debug(), bodies.len())
                &&& final(cg).coverage() == old(cg).coverage()
            } else {
                unchanged(*old(cg), *final(cg))
            }
        }),
{
    if !managed(cg, out) {
        return;
    }
    let all_pure = match cg.ledger_mut().move_phi_owners(incoming, mark) {
        Some(p) => p,
        None => {
            return;
        },
    };
    let ghost fr1 = cg.state().arc.frames();
    own(cg, out);
    let ghost fr2 = cg.state().arc.frames();
    if all_pure {
        cg.ledger_mut().mark_pure_scalar(out.operand.as_str());
        proof {
            let l = fr1.len() - 1;
            let o = Owner { pure_scalar: true, ..fresh_owner(out.operand@, slot_name(old(cg).state().slots as nat)) };
            assert(fr2.last().update(fr2.last().len() - 1, o) =~= fr1.last().push(o));
            assert(cg.state().arc.frames() =~= fr1.update(l, fr1.last().push(o)));
        }
    }
}

/// A `let` bound `v` to `name` in lexical scope `scope`: the owner the
/// closing statement holds moves, named, into the parent region; a borrow (a
/// field load, an unwrapped payload, an alias, a phi) is retained and
/// recorded there instead, so the binding outlives its source. Nothing for a
/// value that is not a managed candidate.
pub fn bind_owned(cg: &mut Codegen, name: &str, v: &Value, scope: Option<usize>)
    requires
        old(cg).wf(),
        old(cg).state().arc.frames().len() > 0,
        old(cg).state().lines.len() >= 1,
        old(cg).state().slots < usize::MAX,
        old(cg).state().regs + 2 <= usize::MAX,
        old(cg).debug_fits(4),
    ensures
        final(cg).wf(),
        !managed_in(old(cg).state(), *v) ==> unchanged(*old(cg), *final(cg)),
        managed_in(old(cg).state(), *v) ==> {
            let fr = old(cg).state().arc.frames();
            let k = newest(fr.last(), v.operand@);
            let p = parent_index(fr.len() as int);
            let n = old(cg).state().regs as nat;
            let d = old(cg).debug();
            let slot = slot_name(old(cg).state().slots as nat);
            if k >= 0 {
                let rest = fr.update(fr.len() - 1, fr.last().remove(k));
                let o = Owner { name: Some(name@), binding_scope: scope, ..fr.last()[k] };
                &&& final(cg).state() == (Emission { arc: final(cg).state().arc, ..old(cg).state() })
                &&& final(cg).state().arc.frames() == rest.update(p, rest[p].push(o))
                &&& final(cg).state().arc.floors() == old(cg).state().arc.floors()
                &&& final(cg).debug() == old(cg).debug()
                &&& final(cg).coverage() == old(cg).coverage()
            } else {
                let j = ptr_regs(*v);
                let bodies = retain_bodies(*v, n) + ptr_bodies(*v, n + j).push(
                    "store i8* "@ + ptr_of(*v, n + j) + ", i8** "@ + slot,
                );
                let o = Owner {
                    operand: v.operand@,
                    name: Some(name@),
                    binding_scope: scope,
                    slot: slot,
                    pure_scalar: false,
                };
                &&& final(cg).state() == (Emission {
                    externs: final(cg).state().externs,
                    regs: (n + 2 * j) as usize,
                    slots: (old(cg).state().slots + 1) as usize,
                    lines: hoisted(old(cg).state().lines, slot) + located_lines(bodies, d),
                    arc: final(cg).state().arc,
                    ..old(cg).state()
                })
                &&& declares(*old(cg), *final(cg), RETAIN_DECL@)
                &&& final(cg).state().arc.frames() == fr.update(p, fr[p].push(o))
                &&& final(cg).state().arc.floors() == old(cg).state().arc.floors()
                &&& located_n(d, final(cg).debug(), bodies.len())
                &&& final(cg).coverage() == old(cg).coverage()
            }
        },
{
    if !managed(cg, v) {
        return;
    }
    if cg.ledger_mut().bind_owned(name, v.operand.as_str(), scope) {
        return;
    }
    let slot = cg.hoist_arc_slot();
    let ghost c1 = *cg;
    let ghost n = c1.state().regs as nat;
    retain_val(cg, v);
    let ghost c2 = *cg;
    let ptr = as_i8ptr(cg, v);
    let ghost c3 = *cg;
    let mut store = owned("store i8* ");
    store.append(ptr.as_str());
    store.append(", i8** ");
    store.append(slot.as_str());
    cg.emit(store.as_str());
    proof {
        let j = ptr_regs(*v);
        lemma_emitted_trans(c1, c2, c3, retain_bodies(*v, n), j, ptr_bodies(*v, n + j), j);
        lemma_emitted_trans(c1, c3, *cg, retain_bodies(*v, n) + ptr_bodies(*v, n + j), 2 * j, seq![store@], 0);
        assert(retain_bodies(*v, n) + ptr_bodies(*v, n + j) + seq![store@] =~= retain_bodies(*v, n)
            + ptr_bodies(*v, n + j).push("store i8* "@ + ptr_of(*v, n + j) + ", i8** "@ + slot@));
    }
    cg.ledger_mut().bind_retained(name, v.operand.as_str(), scope, slot.as_str());
}

/// At most every owner is dead.
proof fn lemma_dead_len(s: Seq<Owner>, live: Set<Seq<char>>, scope: Option<usize>)
    ensures
        dead_owners(s, live, scope).len() <= s.len(),
    decreases s.len(),
{
    if s.len() > 0 {
        lemma_dead_len(s.drop_last(), live, scope);
    }
}

/// Release, from the function-level region, the owners bound in lexical
/// scope `scope` to a name the continuation (whose free names are `live`)
/// no longer references: each is released, newest first, and forgotten.
pub fn release_dead(cg: &mut Codegen, live: &NameSet, scope: Option<usize>)
    requires
        old(cg).wf(),
        live.wf(),
        old(cg).state().arc.frames().len() > 0 ==> {
            let m = old(cg).state().arc.frames()[0].len();
            &&& old(cg).state().regs + m <= usize::MAX
            &&& old(cg).debug_fits(3 * m)
        },
    ensures
        final(cg).wf(),
        ({
            let fr = old(cg).state().arc.frames();
            if fr.len() > 0 {
                let slots = release_order(dead_owners(fr[0], live.set(), scope));
                &&& final(cg).state().arc.frames() == fr.update(0, live_owners(fr[0], live.set(), scope))
                &&& final(cg).state().arc.floors() == old(cg).state().arc.floors()
                &&& emitted_arc(
                    *old(cg),
                    *final(cg),
                    release_bodies(slots, old(cg).state().regs as nat),
                    slots.len(),
                )
                &&& slots.len() == 0 ==> same_externs(*old(cg), *final(cg))
                &&& slots.len() > 0 ==> declares(*old(cg), *final(cg), RELEASE_DECL@)
            } else {
                unchanged(*old(cg), *final(cg))
            }
        }),
{
    proof {
        let fr = old(cg).state().arc.frames();
        if fr.len() > 0 {
            lemma_dead_len(fr[0], live.set(), scope);
            lemma_release_order_len(dead_owners(fr[0], live.set(), scope));
        }
    }
    let slots = cg.ledger_mut().release_dead(live, scope);
    if slots.len() == 0 {
        proof {
            lemma_emitted_none(*cg);
        }
        return;
    }
    release_entries(cg, slots.as_slice());
}

} // verus!
