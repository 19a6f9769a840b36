//! The join of a Result-valued `match`: which success-slot layout the merged
//! value takes.

use crate::error::CodegenError;
use crate::llty::{LType, Value};
use crate::text::owned;
use vstd::prelude::*;
use vstd::string::StringExecFns;

verus! {

/// The success layouts of the arms that fix one — every Result arm that is
/// not a bare-Error placeholder — in arm order.
pub open spec fn concrete_inners(phi: Seq<(Value, String)>) -> Seq<LType>
    decreases phi.len(),
{
    if phi.len() == 0 {
        Seq::empty()
    } else {
        let before = concrete_inners(phi.drop_last());
        let v = phi.last().0;
        if !v.result_inner_is_placeholder && v.result_inner is Some {
            before.push(v.result_inner->0)
        } else {
            before
        }
    }
}

/// The first layout in `c` that differs from `t`.
pub open spec fn first_other(c: Seq<LType>, t: LType) -> Option<LType>
    decreases c.len(),
{
    if c.len() == 0 {
        None
    } else {
        match first_other(c.drop_last(), t) {
            Some(x) => Some(x),
            None => if c.last() != t {
                Some(c.last())
            } else {
                None
            },
        }
    }
}

/// Every arm is a Result block.
pub open spec fn all_results(phi: Seq<(Value, String)>) -> bool {
    forall|i: int| 0 <= i < phi.len() ==> (#[trigger] phi[i]).0.result_inner is Some
}

/// The layout a Result-valued join takes: the first concrete arm's, else the
/// first arm's placeholder.
pub open spec fn join_target(phi: Seq<(Value, String)>) -> LType {
    let c = concrete_inners(phi);
    if c.len() > 0 {
        c[0]
    } else {
        phi[0].0.result_inner->0
    }
}

/// The diagnostic of two concrete layouts that disagree.
pub open spec fn disagree_text(t: LType, o: LType) -> Seq<char> {
    "match Result arms disagree on success type: `"@ + t.spelling() + "` and `"@ + o.spelling()
        + "`"@
}

/// The outcome of joining the arms `phi`.
pub open spec fn join_spec(phi: Seq<(Value, String)>) -> Result<Option<LType>, Seq<char>> {
    if phi.len() == 0 || !all_results(phi) {
        Ok(None)
    } else {
        let t = join_target(phi);
        match first_other(concrete_inners(phi), t) {
            Some(o) => Err(disagree_text(t, o)),
            None => Ok(Some(t)),
        }
    }
}

/// Resolve the concrete success-slot layout for a Result-valued match. When
/// some arm is not a Result the join has no Result layout (`None`). A bare
/// Error constructor contributes only a placeholder layout; any real producer
/// fixes the contextual `T`. Two concrete layouts that disagree are an error
/// naming the first and the first that differs from it.
pub fn result_join_inner(phi_in: &[(Value, String)]) -> (r: Result<Option<LType>, CodegenError>)
    ensures
        match (r, join_spec(phi_in@)) {
            (Ok(a), Ok(b)) => a == b,
            (Err(e), Err(m)) => e matches CodegenError::Invalid(w) && w@ == m,
            _ => false,
        },
{
    let ghost phi = phi_in@;
    let n = phi_in.len();
    if n == 0 {
        return Ok(None);
    }
    let mut i: usize = 0;
    while i < n
        invariant
            n == phi.len(),
            phi == phi_in@,
            i <= n,
            forall|k: int| 0 <= k < i ==> (#[trigger] phi[k]).0.result_inner is Some,
        decreases n - i,
    {
        if phi_in[i].0.result_inner.is_none() {
            return Ok(None);
        }
        i = i + 1;
    }
    let mut target: Option<LType> = None;
    let mut j: usize = 0;
    while j < n
        invariant
            n == phi.len(),
            phi == phi_in@,
            n > 0,
            all_results(phi),
            j <= n,
            match target {
                Some(t) => concrete_inners(phi.subrange(0, j as int)).len() > 0
                    && concrete_inners(phi.subrange(0, j as int))[0] == t && first_other(
                    concrete_inners(phi.subrange(0, j as int)),
                    t,
                ) is None,
                None => concrete_inners(phi.subrange(0, j as int)).len() == 0,
            },
        decreases n - j,
    {
        let v = &phi_in[j].0;
        proof {
            assert(phi.subrange(0, j + 1).drop_last() =~= phi.subrange(0, j as int));
            assert(phi.subrange(0, j + 1).last() == phi[j as int]);
        }
        if !v.result_inner_is_placeholder {
            let inner = match v.result_inner {
                Some(x) => x,
                None => LType::I64,
            };
            match target {
                None => {
                    target = Some(inner);
                    proof {
                        let c = concrete_inners(phi.subrange(0, j + 1));
                        assert(c =~= seq![inner]);
                        assert(c.drop_last() =~= Seq::<LType>::empty());
                        assert(first_other(Seq::<LType>::empty(), inner) is None);
                        assert(first_other(c, inner) is None);
                    }
                },
                Some(t) => {
                    proof {
                        let c0 = concrete_inners(phi.subrange(0, j as int));
                        let c = concrete_inners(phi.subrange(0, j + 1));
                        assert(c == c0.push(inner));
                        assert(c.drop_last() =~= c0);
                    }
                    if inner != t {
                        proof {
                            let c = concrete_inners(phi.subrange(0, j + 1));
                            assert(c.drop_last() == concrete_inners(phi.subrange(0, j as int)));
                            assert(first_other(c, t) == Some(inner));
                            lemma_other_persists(phi, (j + 1) as nat, t);
                            assert(phi.subrange(0, n as int) =~= phi);
                            assert(concrete_inners(phi).len() > 0);
                            lemma_concrete_prefix(phi, (j + 1) as nat);
                        }
                        let mut msg = owned("match Result arms disagree on success type: `");
                        msg.append(t.as_str());
                        msg.append("` and `");
                        msg.append(inner.as_str());
                        msg.append("`");
                        return Err(CodegenError::Invalid(msg));
                    }
                    proof {
                        let c0 = concrete_inners(phi.subrange(0, j as int));
                        let c = concrete_inners(phi.subrange(0, j + 1));
                        assert(c[0] == c0[0]);
                        assert(first_other(c, t) is None);
                    }
                },
            }
        }
        proof {
            if v.result_inner_is_placeholder {
                assert(concrete_inners(phi.subrange(0, j + 1)) == concrete_inners(
                    phi.subrange(0, j as int),
                ));
            }
        }
        j = j + 1;
    }
    assert(phi.subrange(0, n as int) =~= phi);
    match target {
        Some(t) => Ok(Some(t)),
        None => Ok(phi_in[0].0.result_inner),
    }
}

/// The concrete layouts of a prefix of the arms are a prefix of all of them.
proof fn lemma_concrete_prefix(phi: Seq<(Value, String)>, k: nat)
    requires
        k <= phi.len(),
    ensures
        concrete_inners(phi.subrange(0, k as int)).len() <= concrete_inners(phi).len(),
        forall|i: int|
            0 <= i < concrete_inners(phi.subrange(0, k as int)).len() ==> concrete_inners(
                phi.subrange(0, k as int),
            )[i] == concrete_inners(phi)[i],
    decreases phi.len() - k,
{
    if k < phi.len() {
        lemma_concrete_prefix(phi, k + 1);
        assert(phi.subrange(0, (k + 1) as int).drop_last() =~= phi.subrange(0, k as int));
    } else {
        assert(phi.subrange(0, k as int) =~= phi);
    }
}

/// Once a prefix of the arms holds a layout other than `t`, so do all arms,
/// and it is the same first one.
proof fn lemma_other_persists(phi: Seq<(Value, String)>, k: nat, t: LType)
    requires
        k <= phi.len(),
        first_other(concrete_inners(phi.subrange(0, k as int)), t) is Some,
    ensures
        first_other(concrete_inners(phi), t) == first_other(
            concrete_inners(phi.subrange(0, k as int)),
            t,
        ),
    decreases phi.len() - k,
{
    if k < phi.len() {
        let a = phi.subrange(0, k as int);
        let b = phi.subrange(0, (k + 1) as int);
        assert(b.drop_last() =~= a);
        let ca = concrete_inners(a);
        let cb = concrete_inners(b);
        if cb != ca {
            assert(cb.drop_last() =~= ca);
        }
        assert(first_other(cb, t) == first_other(ca, t));
        lemma_other_persists(phi, k + 1, t);
    } else {
        assert(phi.subrange(0, k as int) =~= phi);
    }
}

/// No layout of `c` differs from `t` exactly when every layout of `c` is `t`.
proof fn lemma_first_other_none(c: Seq<LType>, t: LType)
    ensures
        first_other(c, t) is None <==> forall|k: int| 0 <= k < c.len() ==> #[trigger] c[k] == t,
    decreases c.len(),
{
    if c.len() > 0 {
        lemma_first_other_none(c.drop_last(), t);
        if first_other(c, t) is None {
            assert forall|k: int| 0 <= k < c.len() implies #[trigger] c[k] == t by {
                if k < c.len() - 1 {
                    assert(c.drop_last()[k] == c[k]);
                }
            }
        } else if first_other(c.drop_last(), t) is Some {
            let k = choose|k: int| 0 <= k < c.drop_last().len() && #[trigger] c.drop_last()[k] != t;
            assert(c[k] != t);
        }
    }
}

/// The outcome of a Result join, in words: when every arm is a Result, two
/// concrete layouts that differ are an error whose message names the
/// disagreement; otherwise the join takes the first concrete layout, or the
/// first arm's placeholder when no arm is concrete.
pub proof fn law_join_outcome(phi: Seq<(Value, String)>)
    requires
        phi.len() > 0,
        all_results(phi),
    ensures
        ({
            let c = concrete_inners(phi);
            &&& (exists|i: int, j: int| 0 <= i < c.len() && 0 <= j < c.len() && #[trigger] c[i] != #[trigger] c[j])
                ==> (join_spec(phi) matches Err(m) && crate::text::has_prefix(
                m,
                "match Result arms disagree on success type"@,
            ))
            &&& !(exists|i: int, j: int| 0 <= i < c.len() && 0 <= j < c.len() && #[trigger] c[i] != #[trigger] c[j])
                ==> join_spec(phi) == Ok::<Option<LType>, Seq<char>>(
                Some(if c.len() > 0 {
                    c[0]
                } else {
                    phi[0].0.result_inner->0
                }),
            )
        }),
{
    let c = concrete_inners(phi);
    let t = join_target(phi);
    lemma_first_other_none(c, t);
    if exists|i: int, j: int| 0 <= i < c.len() && 0 <= j < c.len() && #[trigger] c[i] != #[trigger] c[j] {
        let (i, j) = choose|i: int, j: int| 0 <= i < c.len() && 0 <= j < c.len() && #[trigger] c[i] != #[trigger] c[j];
        assert(c[i] != t || c[j] != t);
        let m = disagree_text(t, first_other(c, t)->0);
        let p = "match Result arms disagree on success type"@;
        let a = "match Result arms disagree on success type: `"@;
        reveal_strlit("match Result arms disagree on success type: `");
        reveal_strlit("match Result arms disagree on success type");
        assert(a.subrange(0, p.len() as int) =~= p);
        assert(first_other(c, t) is Some);
        assert(m == a + (t.spelling() + "` and `"@ + first_other(c, t)->0.spelling() + "`"@)) by {
            assert(m =~= a + (t.spelling() + "` and `"@ + first_other(c, t)->0.spelling() + "`"@));
        }
        assert(m.subrange(0, p.len() as int) =~= a.subrange(0, p.len() as int));
        assert(crate::text::has_prefix(m, p));
        assert(join_spec(phi) == Err::<Option<LType>, Seq<char>>(m));
    } else {
        if c.len() > 0 {
            assert forall|k: int| 0 <= k < c.len() implies #[trigger] c[k] == t by {
                if c[k] != c[0] {
                    assert(c[k] != c[0]);
                }
            }
        }
    }
}

} // verus!
