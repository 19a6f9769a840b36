//! Owner tags of flat list-literal handles. A list literal lowers to a flat
//! heap block `{ i64 length, i8* data }` — distinct from the runtime list
//! handle — tagged `[]<element spelling>` so index access can reload it.

use crate::aggregate::{field_gep, load_field};
use crate::arc::{lemma_owns_retag, owns};
use crate::builder::{
    emitted, label, lemma_emitted_trans, lemma_located_none, lemma_wf_debug, located_n, register, unchanged,
    Codegen, Emission,
};
use crate::call::{call_text, declaration};
use crate::collections::{
    handle_value, list_builder_new_of, list_builder_push_borrowed, list_builder_seal, list_owner,
};
use crate::conv::{box_to_i64, word_rhs};
use crate::debug_info::DebugState;
use crate::llty::{
    elem_of, elem_of_spelling, elem_spelling, elem_tag, opt_text, tag_suffix, tagged_owner, LType, Value,
};
use crate::loops::{
    close_lines, close_range_loop, counter_lines, frame_close_lines, lemma_close_from, lemma_counter_from,
    lemma_emitted_from, lemma_from_concat,
    located_from, open_range_loop,
};
use crate::text::{has_prefix, owned, strip_prefix};
use vstd::prelude::*;
use vstd::string::StringExecFns;

verus! {

/// Owner-tag prefix marking a flat list-literal handle.
pub const LIST_LIT: &'static str = "[]";

/// The LLVM spelling of the flat list-literal header block.
pub const LIST_STRUCT: &'static str = "{ i64, i8* }";

/// The owner tag of a `{ i64 length, char **items }` block minted by the C
/// string runtime (`lines` / `split` / `words`): the flat literal layout with
/// `i8*` elements, NOT a runtime list.
pub const STRING_LIST_OWNER: &'static str = "[]i8*";

/// The literal owner tag of an element.
pub open spec fn lit_tag(elem: Value) -> Seq<char> {
    "[]"@ + match elem_tag(elem) {
        Some(t) => t,
        None => "i64"@,
    }
}

/// Tag a flat list-literal handle with its element. A scalar element records
/// its spelling (`[]i64`); a handle element records its own owner (`[][]i64`,
/// `[]Point`); an element with no spelling records the `i64` storage width it
/// will be reloaded at.
pub fn lit_owner(elem: &Value) -> (r: String)
    ensures
        r@ == lit_tag(*elem),
{
    match elem_spelling(elem) {
        Some(s) => lit_owner_of(s.as_str()),
        None => lit_owner_of(LType::I64.as_str()),
    }
}

/// A flat literal's owner tag for an already-chosen element spelling.
pub fn lit_owner_of(spelling: &str) -> (r: String)
    ensures
        r@ == "[]"@ + spelling@,
{
    let mut r = owned("[]");
    r.append(spelling);
    r
}

/// The element of a flat list-literal tag.
pub open spec fn lit_elem_spec(osp_ty: Option<Seq<char>>) -> Option<(LType, Option<Seq<char>>)> {
    match tag_suffix(osp_ty, "[]"@) {
        Some(s) => Some(elem_of(s)),
        None => None,
    }
}

/// The element of a flat list-literal handle: its storage [`LType`] and, for a
/// handle element, the owner type to re-tag the loaded value with.
pub fn lit_elem(osp_ty: Option<&str>) -> (r: Option<(LType, Option<String>)>)
    ensures
        match (r, lit_elem_spec(crate::collections::opt_str(osp_ty))) {
            (Some((t, o)), Some((st, so))) => t == st && opt_text(o) == so,
            (None, None) => true,
            _ => false,
        },
{
    match osp_ty {
        Some(o) => match strip_prefix(o, "[]") {
            Some(suffix) => Some(elem_of_spelling(suffix.as_str())),
            None => None,
        },
        None => None,
    }
}

/// `true` when `v` is a flat list-literal handle rather than a runtime list.
pub fn is_lit(v: &Value) -> (r: bool)
    ensures
        r == (lit_elem_spec(opt_text(v.osp_ty)) is Some),
{
    match &v.osp_ty {
        Some(o) => lit_elem(Some(o.as_str())).is_some(),
        None => lit_elem(None).is_some(),
    }
}

/// The element-kind flag of a runtime list builder for elements of type `e`.
pub open spec fn managed_text(e: LType) -> Seq<char> {
    if e.managed() {
        "1"@
    } else {
        "0"@
    }
}

/// The registers widening one loaded element of type `e` to a word draws.
pub open spec fn word_regs_of(e: LType) -> nat {
    if e == LType::I64 {
        0
    } else {
        1
    }
}

/// The instructions that open the rebuild of the flat literal at `op`, of
/// element type `e`: its length and data loaded, a builder opened, the data
/// cast to an element array; the first register free being `n`.
pub open spec fn header_bodies(op: Seq<char>, e: LType, n: nat) -> Seq<Seq<char>> {
    seq![
        register(n) + " = "@ + field_gep(LIST_STRUCT@, op, 0),
        register(n + 1) + " = "@ + "load "@ + LType::I64.spelling() + ", "@ + LType::I64.spelling() + "* "@
            + register(n),
        register(n + 2) + " = "@ + field_gep(LIST_STRUCT@, op, 1),
        register(n + 3) + " = "@ + "load "@ + LType::Str.spelling() + ", "@ + LType::Str.spelling() + "* "@
            + register(n + 2),
        register(n + 4) + " = "@ + call_text("i8*"@, "osprey_list_builder_new_of"@, "i32"@, seq![managed_text(e)]),
        register(n + 5) + " = "@ + "bitcast i8* "@ + register(n + 3) + " to "@ + e.spelling() + "*"@,
    ]
}

/// The instructions that push element `i` of the element array `arr` (of
/// type `e`), widened to a word, borrowed onto the builder `bld`; the first
/// register free being `n`.
pub open spec fn element_bodies(arr: Seq<char>, i: Seq<char>, bld: Seq<char>, e: LType, n: nat) -> Seq<Seq<char>> {
    let es = e.spelling();
    let raw = register(n + 1);
    let word = if word_regs_of(e) == 0 {
        raw
    } else {
        register(n + 2)
    };
    let widen: Seq<Seq<char>> = match word_rhs(e, raw) {
        Some(rhs) => seq![register(n + 2) + " = "@ + rhs],
        None => Seq::empty(),
    };
    seq![
        register(n) + " = "@ + "getelementptr "@ + es + ", "@ + es + "* "@ + arr + ", i64 "@ + i,
        raw + " = "@ + "load "@ + es + ", "@ + es + "* "@ + register(n),
    ] + widen + seq![call_text("void"@, "osprey_list_builder_push_borrowed"@, "i8*, i64"@, seq![bld, word])]
}

/// The lines that rebuild the flat literal at `op`, of element type `e`, as a
/// runtime list: the header, a counted loop pushing each element, and the
/// builder sealed; the first register free being `n`, the first label `l`,
/// its locations from the first from now.
pub open spec fn relist_lines(op: Seq<char>, e: LType, n: nat, l: nat, d: Option<DebugState>) -> Seq<Seq<char>> {
    let w = word_regs_of(e);
    located_from(header_bodies(op, e, n), d, 0) + counter_lines("0"@, register(n + 1), n + 6, l, d, 6)
        + located_from(element_bodies(register(n + 5), register(n + 7), register(n + 4), e, n + 9), d, 12)
        + frame_close_lines(
        register(n + 6),
        register(n + 7),
        label(l),
        label(l + 2),
        label(l + 3),
        n + 11 + w,
        d,
        15 + w,
    ) + located_from(
        seq![
            register(n + 12 + w) + " = "@ + call_text(
                "i8*"@,
                "osprey_list_builder_seal"@,
                "i8*"@,
                seq![register(n + 4)],
            ),
        ],
        d,
        19 + w,
    )
}

/// `after` is `before` with the flat literal `v` of element type `e` rebuilt
/// as the runtime list `r`, owned by the current region and tagged with the
/// literal's element.
pub open spec fn relisted(before: Codegen, after: Codegen, v: Value, e: LType, r: Value) -> bool {
    let n = before.state().regs as nat;
    let l = before.state().labels as nat;
    let w = word_regs_of(e);
    &&& handle_value(
        r,
        register(n + 12 + w),
        tagged_owner("List#"@, "List"@, tag_suffix(opt_text(v.osp_ty), "[]"@)),
    )
    &&& exists|mid: Codegen|
        {
            &&& mid.wf()
            &&& mid.state() == (Emission {
                externs: mid.state().externs,
                regs: (n + 13 + w) as usize,
                labels: (l + 4) as usize,
                lines: before.state().lines + relist_lines(v.operand@, e, n, l, before.debug()),
                block: label(l + 3),
                ..before.state()
            })
            &&& mid.state().externs.to_set() == before.state().externs.to_set().insert(
                declaration("i8*"@, "osprey_list_builder_new_of"@, "i32"@),
            ).insert(declaration("void"@, "osprey_list_builder_push_borrowed"@, "i8*, i64"@)).insert(
                declaration("i8*"@, "osprey_list_builder_seal"@, "i8*"@),
            )
            &&& located_n(before.debug(), mid.debug(), 20 + w)
            &&& mid.coverage() == before.coverage()
            &&& #[trigger] owns(mid, after, r)
        }
}

/// Open the rebuild of the flat literal at `op` of element type `elem`:
/// answer its length, its data as an element array, and a fresh builder.
fn literal_header(cg: &mut Codegen, op: &str, elem: LType) -> (r: (String, String, String))
    requires
        old(cg).wf(),
        old(cg).state().regs + 6 <= usize::MAX,
        old(cg).debug_fits(6),
    ensures
        ({
            let n = old(cg).state().regs as nat;
            &&& r.0@ == register(n + 1)
            &&& r.1@ == register(n + 5)
            &&& r.2@ == register(n + 4)
            &&& emitted(*old(cg), *final(cg), header_bodies(op@, elem, n), 6)
            &&& final(cg).state().externs.to_set() == old(cg).state().externs.to_set().insert(
                declaration("i8*"@, "osprey_list_builder_new_of"@, "i32"@),
            )
        }),
{
    let ghost c0 = *cg;
    let ghost n = c0.state().regs as nat;
    let len = load_field(cg, LIST_STRUCT, op, 0, LType::I64);
    let ghost c1 = *cg;
    let data = load_field(cg, LIST_STRUCT, op, 1, LType::Str);
    let ghost c2 = *cg;
    let managed = if elem.is_managed_ptr() {
        "1"
    } else {
        "0"
    };
    let bld = list_builder_new_of(cg, managed);
    let ghost c3 = *cg;
    let mut cast = owned("bitcast i8* ");
    cast.append(data.as_str());
    cast.append(" to ");
    cast.append(elem.as_str());
    cast.append("*");
    let arr = cg.emit_reg(cast.as_str());
    proof {
        let h = header_bodies(op@, elem, n);
        assert(h.subrange(0, 2) =~= seq![h[0], h[1]]);
        assert(h.subrange(2, 4) =~= seq![h[2], h[3]]);
        lemma_emitted_trans(c0, c1, c2, h.subrange(0, 2), 2, h.subrange(2, 4), 2);
        assert(h.subrange(0, 2) + h.subrange(2, 4) =~= h.subrange(0, 4));
        assert(seq![register(n + 4) + " = "@ + call_text("i8*"@, "osprey_list_builder_new_of"@, "i32"@, seq![managed@])] =~= h.subrange(4, 5));
        lemma_emitted_trans(c0, c2, c3, h.subrange(0, 4), 4, h.subrange(4, 5), 1);
        assert(h.subrange(0, 4) + h.subrange(4, 5) =~= h.subrange(0, 5));
        assert(seq![arr@ + " = "@ + cast@] =~~= h.subrange(5, 6));
        lemma_emitted_trans(c0, c3, *cg, h.subrange(0, 5), 5, h.subrange(5, 6), 1);
        assert(h.subrange(0, 5) + h.subrange(5, 6) =~= h);
    }
    (len, arr, bld)
}

/// Push element `i` of the element array `arr` (of type `elem`), widened to
/// a word, borrowed onto the builder `bld`.
#[verifier::rlimit(60)]
fn push_element(cg: &mut Codegen, arr: &str, i: &str, bld: &str, elem: LType)
    requires
        old(cg).wf(),
        old(cg).state().regs + 4 <= usize::MAX,
        old(cg).debug_fits(4),
    ensures
        emitted(*old(cg), *final(cg), element_bodies(arr@, i@, bld@, elem, old(cg).state().regs as nat), 2 + word_regs_of(elem)),
        final(cg).state().externs.to_set() == old(cg).state().externs.to_set().insert(
            declaration("void"@, "osprey_list_builder_push_borrowed"@, "i8*, i64"@),
        ),
{
    let ghost c0 = *cg;
    let ghost n = c0.state().regs as nat;
    let ghost es = elem.spelling();
    let mut gep = owned("getelementptr ");
    gep.append(elem.as_str());
    gep.append(", ");
    gep.append(elem.as_str());
    gep.append("* ");
    gep.append(arr);
    gep.append(", i64 ");
    gep.append(i);
    let slot = cg.emit_reg(gep.as_str());
    let ghost c1 = *cg;
    let mut ld = owned("load ");
    ld.append(elem.as_str());
    ld.append(", ");
    ld.append(elem.as_str());
    ld.append("* ");
    ld.append(slot.as_str());
    let raw = cg.emit_reg(ld.as_str());
    let ghost c2 = *cg;
    let loaded = Value::new(raw.as_str(), elem);
    let word = box_to_i64(cg, loaded);
    let ghost c3 = *cg;
    list_builder_push_borrowed(cg, bld, word.operand.as_str());
    proof {
        let b = element_bodies(arr@, i@, bld@, elem, n);
        let w = word_regs_of(elem);
        assert(crate::conv::word_bodies(loaded, n + 2) =~= b.subrange(2, 2 + w as int));
        assert(seq![slot@ + " = "@ + gep@] =~~= b.subrange(0, 1));
        assert(seq![raw@ + " = "@ + ld@] =~~= b.subrange(1, 2));
        lemma_emitted_trans(c0, c1, c2, b.subrange(0, 1), 1, b.subrange(1, 2), 1);
        assert(b.subrange(0, 1) + b.subrange(1, 2) =~= b.subrange(0, 2));
        lemma_emitted_trans(c0, c2, c3, b.subrange(0, 2), 2, b.subrange(2, 2 + w as int), w);
        assert(b.subrange(0, 2) + b.subrange(2, 2 + w as int) =~= b.subrange(0, 2 + w as int));
        assert(word.operand@ == if w == 0 { register(n + 1) } else { register(n + 2) });
        assert(seq![call_text("void"@, "osprey_list_builder_push_borrowed"@, "i8*, i64"@, seq![bld@, word.operand@])] =~~= b.subrange(2 + w as int, 3 + w as int));
        lemma_emitted_trans(c0, c3, *cg, b.subrange(0, 2 + w as int), 2 + w, b.subrange(2 + w as int, 3 + w as int), 0);
        assert(b.subrange(0, 2 + w as int) + b.subrange(2 + w as int, 3 + w as int) =~= b);
    }
}

/// Rebuild a flat list-literal handle as a runtime list, or answer the value
/// untouched when it is not a literal. The two layouts share only their
/// leading length, so a literal must never reach the list runtime as is.
/// Elements are borrowed from the literal, which keeps its own reference, so
/// the builder retains the ones it keeps.
#[verifier::rlimit(100)]
pub fn to_runtime_list(cg: &mut Codegen, v: Value) -> (r: Value)
    requires
        old(cg).wf(),
        old(cg).state().regs + 20 <= usize::MAX,
        old(cg).state().labels + 4 <= usize::MAX,
        old(cg).state().slots < usize::MAX,
        old(cg).debug_fits(24),
    ensures
        lit_elem_spec(opt_text(v.osp_ty)) is None ==> r == v && unchanged(*old(cg), *final(cg)),
        lit_elem_spec(opt_text(v.osp_ty)) matches Some((e, _)) ==> relisted(*old(cg), *final(cg), v, e, r),
{
    let le = match &v.osp_ty {
        Some(o) => lit_elem(Some(o.as_str())),
        None => lit_elem(None),
    };
    let elem = match le {
        Some((e, _)) => e,
        None => {
            return v;
        },
    };
    let ghost c0 = *cg;
    let ghost d0 = c0.debug();
    let ghost n = c0.state().regs as nat;
    let ghost l = c0.state().labels as nat;
    let ghost w = word_regs_of(elem);
    proof {
        lemma_wf_debug(c0);
        lemma_located_none(d0);
    }
    let (len, arr, bld) = literal_header(cg, v.operand.as_str(), elem);
    let ghost c4 = *cg;
    proof {
        lemma_emitted_from(d0, c0, c4, header_bodies(v.operand@, elem, n), 6, 0);
    }
    let lp = open_range_loop(cg, "0", len.as_str());
    let ghost c5 = *cg;
    proof {
        lemma_counter_from(d0, c4.debug(), c5.debug(), 6, "0"@, register(n + 1), n + 6, l);
    }
    push_element(cg, arr.as_str(), lp.i.as_str(), bld.as_str(), elem);
    let ghost c8 = *cg;
    proof {
        lemma_emitted_from(d0, c5, c8, element_bodies(register(n + 5), register(n + 7), register(n + 4), elem, n + 9), 2 + w, 12);
    }
    close_range_loop(cg, &lp);
    let ghost c9 = *cg;
    proof {
        lemma_close_from(d0, c8.debug(), c9.debug(), 15 + w, lp, n + 11 + w);
    }
    let sealed = list_builder_seal(cg, bld.as_str());
    let owner = match crate::llty::elem_of_tag(&v, LIST_LIT) {
        Some(t) => list_owner(Some(t.as_str())),
        None => list_owner(None),
    };
    let r = sealed.with_owner(Some(owner));
    proof {
        let mid = choose|mid: Codegen|
            crate::call::called(
                c9,
                mid,
                sealed.operand@,
                "i8*"@,
                "osprey_list_builder_seal"@,
                "i8*"@,
                seq![bld@],
            ) && #[trigger] owns(mid, *cg, sealed);
        let b10 = seq![
            register(n + 12 + w) + " = "@ + call_text("i8*"@, "osprey_list_builder_seal"@, "i8*"@, seq![register(n + 4)]),
        ];
        lemma_emitted_from(d0, c9, mid, b10, 1, 19 + w);
        assert(!has_prefix(owner@, "[]"@)) by {
            reveal_strlit("[]");
            reveal_strlit("List#");
            reveal_strlit("List");
            if has_prefix(owner@, "[]"@) {
                assert(owner@.subrange(0, 2)[0] == owner@[0]);
            }
        }
        assert(!has_prefix(sealed.osp_ty->0@, "[]"@)) by {
            reveal_strlit("[]");
            reveal_strlit("List");
            if has_prefix(sealed.osp_ty->0@, "[]"@) {
                assert(sealed.osp_ty->0@.subrange(0, 2)[0] == sealed.osp_ty->0@[0]);
            }
        }
        lemma_owns_retag(mid, *cg, sealed, r);
        assert(mid.state().lines =~= c0.state().lines + relist_lines(v.operand@, elem, n, l, d0));
        assert(mid.state().externs.to_set() =~= c0.state().externs.to_set().insert(
            declaration("i8*"@, "osprey_list_builder_new_of"@, "i32"@),
        ).insert(declaration("void"@, "osprey_list_builder_push_borrowed"@, "i8*, i64"@)).insert(
            declaration("i8*"@, "osprey_list_builder_seal"@, "i8*"@),
        ));
    }
    r
}

} // verus!
