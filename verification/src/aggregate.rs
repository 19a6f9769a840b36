//! Heap blocks of records, variants and anonymous objects: the layout word
//! of an anonymous-object block `{ i64 tag, fields… }`, and the loads and
//! stores of a block's elements.

use crate::arc::{
    consume_into_store, dup_store, emitted_arc, lemma_emitted_arc_trans, newest_unnamed, RETAIN_DECL,
};
use crate::builder::{
    declares, emitted, lemma_emitted_none, lemma_emitted_trans, register, same_externs, Codegen,
};
use crate::llty::LType;
use crate::meta::{meta_describes, struct_meta, MetaField};
use crate::text::{
    decimal, has_prefix, has_suffix, owned, push_decimal, push_signed, signed_decimal, starts_with,
};
use vstd::prelude::*;
use vstd::string::StringExecFns;

verus! {

/// The layout fields of a `{ i64 tag, fields… }` block whose fields travel as
/// `types`: a scalar tag word, then each field by its LLVM type.
pub open spec fn tagged_layout(types: Seq<LType>) -> Seq<MetaField> {
    seq![MetaField::Word] + types.map_values(|t: LType| MetaField::field_of(t))
}

/// The field types of a named field list.
pub open spec fn field_types(fields: Seq<(String, LType)>) -> Seq<LType> {
    fields.map_values(|f: (String, LType)| f.1)
}

/// The layout word for an ANONYMOUS-object block `{ i64 tag, fields… }` from
/// runtime value `LType`s: the leading discriminant is a scalar word; each
/// field marks itself by its LLVM type.
pub fn tagged_fields_meta(fields: &[(String, LType)]) -> (r: i64)
    requires
        fields@.len() < 0x0800_0000_0000_0000,
    ensures
        meta_describes(tagged_layout(field_types(fields@)), r),
{
    let mut mf: Vec<MetaField> = Vec::new();
    mf.push(MetaField::Word);
    let mut i: usize = 0;
    while i < fields.len()
        invariant
            i <= fields@.len(),
            mf@ =~= tagged_layout(field_types(fields@.subrange(0, i as int))),
        decreases fields@.len() - i,
    {
        let f = MetaField::of_lty(fields[i].1);
        mf.push(f);
        i = i + 1;
        assert(mf@ =~= tagged_layout(field_types(fields@.subrange(0, i as int))));
    }
    assert(fields@.subrange(0, fields@.len() as int) =~= fields@);
    struct_meta(mf.as_slice())
}

/// The address computation of the `idx`-th element of a `{TY}*` block.
pub open spec fn field_gep(struct_ty: Seq<char>, obj: Seq<char>, idx: nat) -> Seq<char> {
    "getelementptr "@ + struct_ty + ", "@ + struct_ty + "* "@ + obj + ", i32 0, i32 "@ + decimal(idx)
}

/// The address of the `idx`-th element of the `{TY}*` block `obj`, in a
/// fresh register.
pub fn field_ptr(cg: &mut Codegen, struct_ty: &str, obj: &str, idx: usize) -> (p: String)
    requires
        old(cg).wf(),
        old(cg).state().regs < usize::MAX,
        old(cg).debug_fits(1),
    ensures
        p@ == register(old(cg).state().regs as nat),
        emitted(*old(cg), *final(cg), seq![p@ + " = "@ + field_gep(struct_ty@, obj@, idx as nat)], 1),
        same_externs(*old(cg), *final(cg)),
{
    let mut rhs = owned("getelementptr ");
    rhs.append(struct_ty);
    rhs.append(", ");
    rhs.append(struct_ty);
    rhs.append("* ");
    rhs.append(obj);
    rhs.append(", i32 0, i32 ");
    push_decimal(&mut rhs, idx as u64);
    cg.emit_reg(rhs.as_str())
}

/// Load the `idx`-th element (of LLVM type `fty`) of the `{TY}*` block
/// `obj`, answering the value register.
pub fn load_field(cg: &mut Codegen, struct_ty: &str, obj: &str, idx: usize, fty: LType) -> (r: String)
    requires
        old(cg).wf(),
        old(cg).state().regs + 2 <= usize::MAX,
        old(cg).debug_fits(2),
    ensures
        ({
            let n = old(cg).state().regs as nat;
            &&& r@ == register(n + 1)
            &&& emitted(
                *old(cg),
                *final(cg),
                seq![
                    register(n) + " = "@ + field_gep(struct_ty@, obj@, idx as nat),
                    register(n + 1) + " = "@ + "load "@ + fty.spelling() + ", "@ + fty.spelling() + "* "@
                        + register(n),
                ],
                2,
            )
        }),
        same_externs(*old(cg), *final(cg)),
{
    let ghost c0 = *cg;
    let p = field_ptr(cg, struct_ty, obj, idx);
    let ghost c1 = *cg;
    let mut rhs = owned("load ");
    rhs.append(fty.as_str());
    rhs.append(", ");
    rhs.append(fty.as_str());
    rhs.append("* ");
    rhs.append(p.as_str());
    let r = cg.emit_reg(rhs.as_str());
    proof {
        lemma_emitted_trans(c0, c1, *cg, seq![p@ + " = "@ + field_gep(struct_ty@, obj@, idx as nat)], 1, seq![r@ + " = "@ + rhs@], 1);
        assert(seq![p@ + " = "@ + field_gep(struct_ty@, obj@, idx as nat)] + seq![r@ + " = "@ + rhs@] =~~= seq![
            register(c0.state().regs as nat) + " = "@ + field_gep(struct_ty@, obj@, idx as nat),
            register((c0.state().regs + 1) as nat) + " = "@ + "load "@ + fty.spelling() + ", "@ + fty.spelling() + "* "@
                + register(c0.state().regs as nat),
        ]);
    }
    r
}

/// Whether storing `val` into a slot of type `fty` moves an owner rather
/// than duplicating a reference: a register-carried pointer that the
/// innermost region owns, unnamed.
pub open spec fn moves_owner(cg: Codegen, fty: LType, val: Seq<char>) -> bool {
    let fr = cg.state().arc.frames();
    &&& fty.managed()
    &&& has_prefix(val, "%"@)
    &&& fr.len() > 0
    &&& newest_unnamed(fr.last(), val) >= 0
}

/// Store `val` (of LLVM type `fty`) into the `idx`-th element of the
/// `{TY}*` block `obj`. A pointer stored is a new reference the block's
/// release will drop, so it is retained, unless it is a fresh owner the
/// innermost region holds, which moves into the slot instead (its region
/// then releases nothing).
pub fn store_field(cg: &mut Codegen, struct_ty: &str, obj: &str, idx: usize, fty: LType, val: &str)
    requires
        old(cg).wf(),
        old(cg).state().regs < usize::MAX,
        old(cg).debug_fits(4),
    ensures
        final(cg).wf(),
        ({
            let n = old(cg).state().regs as nat;
            let fr = old(cg).state().arc.frames();
            let access = seq![
                register(n) + " = "@ + field_gep(struct_ty@, obj@, idx as nat),
                "store "@ + fty.spelling() + " "@ + val@ + ", "@ + fty.spelling() + "* "@ + register(n),
            ];
            if moves_owner(*old(cg), fty, val@) {
                let k = newest_unnamed(fr.last(), val@);
                &&& final(cg).state().arc.frames() == fr.update(fr.len() - 1, fr.last().remove(k))
                &&& final(cg).state().arc.floors() == old(cg).state().arc.floors()
                &&& emitted_arc(
                    *old(cg),
                    *final(cg),
                    seq!["store i8* null, i8** "@ + fr.last()[k].slot] + access,
                    1,
                )
                &&& same_externs(*old(cg), *final(cg))
            } else if fty.managed() && has_prefix(val@, "%"@) {
                &&& emitted(*old(cg), *final(cg), seq!["call void @osp_retain(i8* "@ + val@ + ")"@] + access, 1)
                &&& declares(*old(cg), *final(cg), RETAIN_DECL@)
            } else {
                &&& emitted(*old(cg), *final(cg), access, 1)
                &&& same_externs(*old(cg), *final(cg))
            }
        }),
{
    let ghost c0 = *cg;
    let ghost n = c0.state().regs as nat;
    let pointer = fty.is_managed_ptr() && starts_with(val, "%");
    let mut moved = false;
    if pointer {
        moved = consume_into_store(cg, val);
        if !moved {
            proof {
                reveal_strlit("i8*");
                reveal_strlit("*");
                assert("i8*"@.subrange(2, 3) =~= "*"@);
                assert(has_suffix("i8*"@, "*"@));
            }
            dup_store(cg, "i8*", val);
        }
    } else {
        proof {
            lemma_emitted_none(c0);
        }
    }
    let ghost c1 = *cg;
    let ghost first: Seq<Seq<char>> = if moved {
        seq!["store i8* null, i8** "@ + c0.state().arc.frames().last()[newest_unnamed(c0.state().arc.frames().last(), val@)].slot]
    } else if pointer {
        seq!["call void @osp_retain(i8* "@ + val@ + ")"@]
    } else {
        Seq::empty()
    };
    let p = field_ptr(cg, struct_ty, obj, idx);
    let ghost c2 = *cg;
    let mut store = owned("store ");
    store.append(fty.as_str());
    store.append(" ");
    store.append(val);
    store.append(", ");
    store.append(fty.as_str());
    store.append("* ");
    store.append(p.as_str());
    cg.emit(store.as_str());
    proof {
        let gep = seq![p@ + " = "@ + field_gep(struct_ty@, obj@, idx as nat)];
        lemma_emitted_trans(c1, c2, *cg, gep, 1, seq![store@], 0);
        if moved {
            lemma_emitted_arc_trans(c0, c1, *cg, first, 0, gep + seq![store@], 1);
        } else {
            lemma_emitted_trans(c0, c1, *cg, first, 0, gep + seq![store@], 1);
        }
        assert(first + (gep + seq![store@]) =~~= first + seq![
            register(n) + " = "@ + field_gep(struct_ty@, obj@, idx as nat),
            "store "@ + fty.spelling() + " "@ + val@ + ", "@ + fty.spelling() + "* "@ + register(n),
        ]);
    }
}

/// Write the leading variant tag into slot 0 of a `{ i64 tag, fields… }`
/// block.
pub fn store_tag(cg: &mut Codegen, struct_ty: &str, obj: &str, tag: i64)
    requires
        old(cg).wf(),
        old(cg).state().regs < usize::MAX,
        old(cg).debug_fits(4),
    ensures
        final(cg).wf(),
        emitted(
            *old(cg),
            *final(cg),
            seq![
                register(old(cg).state().regs as nat) + " = "@ + field_gep(struct_ty@, obj@, 0),
                "store "@ + "i64"@ + " "@ + signed_decimal(tag as int) + ", "@ + "i64"@ + "* "@ + register(
                    old(cg).state().regs as nat,
                ),
            ],
            1,
        ),
        same_externs(*old(cg), *final(cg)),
{
    let mut text = String::new();
    push_signed(&mut text, tag);
    proof {
        reveal_strlit("i64");
        reveal_strlit("%");
        crate::text::lemma_signed_first(tag as int);
        assert(text@ =~= signed_decimal(tag as int));
        if has_prefix(text@, "%"@) {
            assert(text@.subrange(0, 1)[0] == text@[0]);
        }
    }
    store_field(cg, struct_ty, obj, 0, LType::I64, text.as_str());
}

} // verus!
