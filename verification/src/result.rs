//! Reading the `Result<T, E>` block `{ T value, i8 disc, i8* errmsg }`,
//! reached by pointer, `disc == 0` meaning Success: its discriminant, its
//! success payload, its error message, and the branch on which it is.

use crate::aggregate::{field_gep, field_ptr, load_field};
use crate::arc::{
    consume_fresh, emitted_arc, ptr_bodies, ptr_of, ptr_regs, retirable, RELEASE_UNIQUE_DECL,
};
use crate::builder::{
    declares, emitted, label, lemma_emitted_trans, located_lines, location_after, register,
    same_externs, unchanged, Codegen, Emission,
};
use crate::llty::{clone_opt, result_block, result_struct_ty, LType, Value};
use crate::text::owned;
use vstd::prelude::*;
use vstd::string::StringExecFns;

verus! {

/// The errmsg operand of a Success, or of an Error without a message.
pub const NO_MSG: &'static str = "null";

/// The instructions that load the `i8` discriminant of the Result block `v`
/// points at, the first register free being `n`.
pub open spec fn disc_bodies(v: Value, n: nat) -> Seq<Seq<char>> {
    seq![
        register(n) + " = "@ + field_gep(result_block(v.result_inner->0), v.operand@, 1),
        register(n + 1) + " = "@ + "load i8, i8* "@ + register(n),
    ]
}

/// Load the `i8` discriminant of a Result block. A value that is no Result
/// reads as the Error discriminant `1`.
pub fn load_disc(cg: &mut Codegen, v: &Value) -> (r: String)
    requires
        old(cg).wf(),
        old(cg).state().regs + 2 <= usize::MAX,
        old(cg).debug_fits(2),
    ensures
        v.result_inner is None ==> r@ == "1"@ && unchanged(*old(cg), *final(cg)),
        v.result_inner is Some ==> {
            let n = old(cg).state().regs as nat;
            &&& r@ == register(n + 1)
            &&& emitted(*old(cg), *final(cg), disc_bodies(*v, n), 2)
            &&& same_externs(*old(cg), *final(cg))
        },
{
    let struct_ty = match v.result_struct_ty() {
        Some(t) => t,
        None => {
            return owned("1");
        },
    };
    let ghost c0 = *cg;
    let dp = field_ptr(cg, struct_ty.as_str(), v.operand.as_str(), 1);
    let ghost c1 = *cg;
    let mut rhs = owned("load i8, i8* ");
    rhs.append(dp.as_str());
    let d = cg.emit_reg(rhs.as_str());
    proof {
        let first = seq![dp@ + " = "@ + field_gep(struct_ty@, v.operand@, 1)];
        lemma_emitted_trans(c0, c1, *cg, first, 1, seq![d@ + " = "@ + rhs@], 1);
        assert(first + seq![d@ + " = "@ + rhs@] =~~= disc_bodies(*v, c0.state().regs as nat));
    }
    d
}

/// The instructions that load the success payload of the Result block `v`
/// points at, the first register free being `n`.
pub open spec fn value_bodies(v: Value, n: nat) -> Seq<Seq<char>> {
    let inner = v.result_inner->0;
    seq![
        register(n) + " = "@ + field_gep(result_block(inner), v.operand@, 0),
        register(n + 1) + " = "@ + "load "@ + inner.spelling() + ", "@ + inner.spelling() + "* "@ + register(n),
    ]
}

/// Load the success payload of a Result block at its inner type, tagged
/// with the payload's owner. A value that is no Result reads as Unit.
pub fn load_value(cg: &mut Codegen, v: &Value) -> (r: Value)
    requires
        old(cg).wf(),
        old(cg).state().regs + 2 <= usize::MAX,
        old(cg).debug_fits(2),
    ensures
        v.result_inner is None ==> r.operand@ == "0"@ && r.ty == LType::I64 && r.is_plain() && unchanged(
            *old(cg),
            *final(cg),
        ),
        v.result_inner is Some ==> {
            let n = old(cg).state().regs as nat;
            &&& r.operand@ == register(n + 1)
            &&& r.ty == v.result_inner->0
            &&& r.osp_ty == v.payload_owner
            &&& (Value { osp_ty: None, ..r }).is_plain()
            &&& emitted(*old(cg), *final(cg), value_bodies(*v, n), 2)
            &&& same_externs(*old(cg), *final(cg))
        },
{
    let inner = match v.result_inner {
        Some(t) => t,
        None => {
            return Value::unit();
        },
    };
    let struct_ty = result_struct_ty(inner);
    let loaded = load_field(cg, struct_ty.as_str(), v.operand.as_str(), 0, inner);
    let ghost n = old(cg).state().regs as nat;
    assert(seq![
        register(n) + " = "@ + field_gep(struct_ty@, v.operand@, 0),
        register(n + 1) + " = "@ + "load "@ + inner.spelling() + ", "@ + inner.spelling() + "* "@ + register(n),
    ] =~~= value_bodies(*v, n));
    Value::new(loaded.as_str(), inner).with_owner(clone_opt(&v.payload_owner))
}

/// The instructions that load the error message of the Result block `v`
/// points at, the first register free being `n`.
pub open spec fn errmsg_bodies(v: Value, n: nat) -> Seq<Seq<char>> {
    seq![
        register(n) + " = "@ + field_gep(result_block(v.result_inner->0), v.operand@, 2),
        register(n + 1) + " = "@ + "load i8*, i8** "@ + register(n),
    ]
}

/// Load the raw error-message pointer of a Result block (`null` when the
/// producer stored none). A value that is no Result reads as `null`.
pub fn load_errmsg(cg: &mut Codegen, v: &Value) -> (r: Value)
    requires
        old(cg).wf(),
        old(cg).state().regs + 2 <= usize::MAX,
        old(cg).debug_fits(2),
    ensures
        r.ty == LType::Str,
        r.is_plain(),
        v.result_inner is None ==> r.operand@ == NO_MSG@ && unchanged(*old(cg), *final(cg)),
        v.result_inner is Some ==> {
            let n = old(cg).state().regs as nat;
            &&& r.operand@ == register(n + 1)
            &&& emitted(*old(cg), *final(cg), errmsg_bodies(*v, n), 2)
            &&& same_externs(*old(cg), *final(cg))
        },
{
    let struct_ty = match v.result_struct_ty() {
        Some(t) => t,
        None => {
            return Value::new(NO_MSG, LType::Str);
        },
    };
    let ghost c0 = *cg;
    let mp = field_ptr(cg, struct_ty.as_str(), v.operand.as_str(), 2);
    let ghost c1 = *cg;
    let mut rhs = owned("load i8*, i8** ");
    rhs.append(mp.as_str());
    let raw = cg.emit_reg(rhs.as_str());
    proof {
        let first = seq![mp@ + " = "@ + field_gep(struct_ty@, v.operand@, 2)];
        lemma_emitted_trans(c0, c1, *cg, first, 1, seq![raw@ + " = "@ + rhs@], 1);
        assert(first + seq![raw@ + " = "@ + rhs@] =~~= errmsg_bodies(*v, c0.state().regs as nat));
    }
    Value::new(raw.as_str(), LType::Str)
}

/// Branch on a Result's discriminant: load it, test it for Success, and
/// branch to three fresh labels `(success, error, end)`, leaving the
/// emitter at the start of the success block.
pub fn open_result_branch(cg: &mut Codegen, v: &Value) -> (r: (String, String, String))
    requires
        old(cg).wf(),
        v.result_inner is Some,
        old(cg).state().regs + 3 <= usize::MAX,
        old(cg).state().labels + 3 <= usize::MAX,
        old(cg).debug_fits(4),
    ensures
        final(cg).wf(),
        ({
            let n = old(cg).state().regs as nat;
            let l = old(cg).state().labels as nat;
            let bodies = disc_bodies(*v, n) + seq![
                register(n + 2) + " = "@ + "icmp eq i8 "@ + register(n + 1) + ", 0"@,
                "br i1 "@ + register(n + 2) + ", label %"@ + label(l) + ", label %"@ + label(l + 1),
            ];
            &&& r.0@ == label(l) && r.1@ == label(l + 1) && r.2@ == label(l + 2)
            &&& final(cg).state() == (Emission {
                regs: (n + 3) as usize,
                labels: (l + 3) as usize,
                lines: old(cg).state().lines + located_lines(bodies, old(cg).debug()) + seq![
                    label(l) + ":"@,
                ],
                block: label(l),
                ..old(cg).state()
            })
            &&& crate::builder::located_n(old(cg).debug(), final(cg).debug(), 4)
            &&& final(cg).coverage() == old(cg).coverage()
        }),
{
    let sl = cg.fresh_label();
    let el = cg.fresh_label();
    let end = cg.fresh_label();
    let ghost c0 = *cg;
    let d = load_disc(cg, v);
    let ghost c1 = *cg;
    let mut test = owned("icmp eq i8 ");
    test.append(d.as_str());
    test.append(", 0");
    let is_succ = cg.emit_reg(test.as_str());
    let ghost c2 = *cg;
    let mut br = owned("br i1 ");
    br.append(is_succ.as_str());
    br.append(", label %");
    br.append(sl.as_str());
    br.append(", label %");
    br.append(el.as_str());
    cg.emit(br.as_str());
    proof {
        let n = c0.state().regs as nat;
        lemma_emitted_trans(c0, c1, c2, disc_bodies(*v, n), 2, seq![is_succ@ + " = "@ + test@], 1);
        lemma_emitted_trans(c0, c2, *cg, disc_bodies(*v, n) + seq![is_succ@ + " = "@ + test@], 3, seq![br@], 0);
        let l = old(cg).state().labels as nat;
        assert(disc_bodies(*v, n) + seq![is_succ@ + " = "@ + test@] + seq![br@] =~~= disc_bodies(*v, n) + seq![
            register(n + 2) + " = "@ + "icmp eq i8 "@ + register(n + 1) + ", 0"@,
            "br i1 "@ + register(n + 2) + ", label %"@ + label(l) + ", label %"@ + label(l + 1),
        ]);
    }
    let ghost c3 = *cg;
    cg.start_block(sl.as_str());
    proof {
        let n = old(cg).state().regs as nat;
        let l = old(cg).state().labels as nat;
        let bodies = disc_bodies(*v, n) + seq![
            register(n + 2) + " = "@ + "icmp eq i8 "@ + register(n + 1) + ", 0"@,
            "br i1 "@ + register(n + 2) + ", label %"@ + label(l) + ", label %"@ + label(l + 1),
        ];
        assert(c3.state().lines == old(cg).state().lines + located_lines(bodies, old(cg).debug()));
        assert(cg.state().lines =~= old(cg).state().lines + located_lines(bodies, old(cg).debug()) + seq![
            label(l) + ":"@,
        ]);
    }
    (sl, el, end)
}

/// The success payload of a Result, in a context that has established the
/// Result is handled explicitly (the success branch of a `?:`, arithmetic
/// that propagates failure); the Result block is then retired when it is a
/// fresh pure owner. A value that is no Result passes through.
pub fn unwrap(cg: &mut Codegen, v: Value) -> (r: Value)
    requires
        old(cg).wf(),
        old(cg).state().regs + 3 <= usize::MAX,
        old(cg).debug_fits(5),
    ensures
        final(cg).wf(),
        v.result_inner is None ==> r == v && unchanged(*old(cg), *final(cg)),
        v.result_inner is Some ==> {
            let n = old(cg).state().regs as nat;
            let fr = old(cg).state().arc.frames();
            &&& r.operand@ == register(n + 1)
            &&& r.ty == v.result_inner->0
            &&& r.osp_ty == v.payload_owner
            &&& (Value { osp_ty: None, ..r }).is_plain()
            &&& if retirable(fr, old(cg).state().arc.floors(), v.operand@) {
                &&& final(cg).state().arc.frames() == fr.update(fr.len() - 1, fr.last().drop_last())
                &&& final(cg).state().arc.floors() == old(cg).state().arc.floors()
                &&& emitted_arc(
                    *old(cg),
                    *final(cg),
                    value_bodies(v, n) + (ptr_bodies(v, n + 2) + seq![
                        "call void @osp_release_unique(i8* "@ + ptr_of(v, n + 2) + ")"@,
                        "store i8* null, i8** "@ + fr.last().last().slot,
                    ]),
                    2 + ptr_regs(v),
                )
                &&& declares(*old(cg), *final(cg), RELEASE_UNIQUE_DECL@)
            } else {
                &&& emitted(*old(cg), *final(cg), value_bodies(v, n), 2)
                &&& same_externs(*old(cg), *final(cg))
            }
        },
{
    if v.result_inner.is_none() {
        return v;
    }
    let ghost c0 = *cg;
    let out = load_value(cg, &v);
    let ghost c1 = *cg;
    consume_fresh(cg, &v);
    proof {
        let n = c0.state().regs as nat;
        if retirable(c0.state().arc.frames(), c0.state().arc.floors(), v.operand@) {
            lemma_emitted_then_arc(
                c0,
                c1,
                *cg,
                value_bodies(v, n),
                2,
                ptr_bodies(v, n + 2) + seq![
                    "call void @osp_release_unique(i8* "@ + ptr_of(v, n + 2) + ")"@,
                    "store i8* null, i8** "@ + c0.state().arc.frames().last().last().slot,
                ],
                ptr_regs(v),
            );
        }
    }
    out
}

/// Emitting `b1`, then updating the ledger while emitting `b2`, emits
/// `b1 + b2` with the ledger updated.
pub proof fn lemma_emitted_then_arc(
    c0: Codegen,
    c1: Codegen,
    c2: Codegen,
    b1: Seq<Seq<char>>,
    k1: nat,
    b2: Seq<Seq<char>>,
    k2: nat,
)
    requires
        c0.state().regs + k1 + k2 <= usize::MAX,
        emitted(c0, c1, b1, k1),
        emitted_arc(c1, c2, b2, k2),
    ensures
        emitted_arc(c0, c2, b1 + b2, k1 + k2),
{
    crate::builder::lemma_located_concat(c0.debug(), c1.debug(), c2.debug(), b1.len(), b2.len());
    let d = c0.debug();
    assert(located_lines(b1 + b2, d) =~= located_lines(b1, d) + located_lines(b2, c1.debug())) by {
        assert forall|i: int| 0 <= i < b2.len() implies #[trigger] located_lines(b2, c1.debug())[i]
            == located_lines(b1 + b2, d)[b1.len() + i] by {
            assert(location_after(c1.debug(), i as nat) == location_after(d, b1.len() + i as nat));
        }
    }
    assert(c2.state().lines =~= c0.state().lines + located_lines(b1 + b2, d));
}

} // verus!
