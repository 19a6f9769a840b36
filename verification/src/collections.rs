//! Owner tags of runtime `List<T>` / `Map<K, V>` handles. The runtime stores
//! every element as a uniform `i64` word, so the tag is the only surviving
//! record of what that word means: `List#double`, `Map#i8*`, or the bare
//! `List` / `Map` when the element is unknown.

use crate::arc::{own, owns};
use crate::builder::Codegen;
use crate::call::{arg_texts, called, called_void};
use crate::llty::{elem_tagged_owner, opt_text, tag_suffix, tagged_owner, LType, Value};
use crate::text::{has_prefix, starts_with, str_eq};
use vstd::prelude::*;

verus! {

/// The owner tag carried by runtime list handles.
pub const LIST_OWNER: &'static str = "List";

/// The owner tag carried by runtime map handles.
pub const MAP_OWNER: &'static str = "Map";

/// The `Error { message }` an out-of-range list read reports — one text for
/// both spellings of the operation (`list[index]` and `listGet`).
pub const INDEX_OOB: &'static str = "index out of bounds";

/// Owner-tag prefix of a runtime list whose element type is known.
pub const LIST_TAG: &'static str = "List#";

/// Owner-tag prefix of a runtime map whose value type is known.
pub const MAP_TAG: &'static str = "Map#";

/// The optional text of an optional `&str`.
pub open spec fn opt_str(o: Option<&str>) -> Option<Seq<char>> {
    match o {
        Some(s) => Some(s@),
        None => None,
    }
}

/// The owner tag for a runtime list holding `elem` words.
pub fn list_owner(elem: Option<&str>) -> (r: String)
    ensures
        r@ == tagged_owner("List#"@, "List"@, opt_str(elem)),
{
    elem_tagged_owner("List#", "List", elem)
}

/// The owner tag for a runtime map holding `elem` value words.
pub fn map_owner(elem: Option<&str>) -> (r: String)
    ensures
        r@ == tagged_owner("Map#"@, "Map"@, opt_str(elem)),
{
    elem_tagged_owner("Map#", "Map", elem)
}

/// A name with a non-empty prefix starts with the prefix's first character.
proof fn lemma_prefix_first(s: Seq<char>, p: Seq<char>)
    requires
        has_prefix(s, p),
        p.len() > 0,
    ensures
        s[0] == p[0],
{
    assert(s.subrange(0, p.len() as int)[0] == s[0]);
}

/// Every list owner tag is recognised as one, whatever its element, and
/// names no map; and the same for map owner tags.
pub proof fn law_owner_tags_recognised(elem: Option<Seq<char>>)
    ensures
        list_owner_spec(tagged_owner("List#"@, "List"@, elem)),
        !map_owner_spec(tagged_owner("List#"@, "List"@, elem)),
        map_owner_spec(tagged_owner("Map#"@, "Map"@, elem)),
        !list_owner_spec(tagged_owner("Map#"@, "Map"@, elem)),
{
    reveal_strlit("List#");
    reveal_strlit("List");
    reveal_strlit("Map#");
    reveal_strlit("Map");
    let l = tagged_owner("List#"@, "List"@, elem);
    let m = tagged_owner("Map#"@, "Map"@, elem);
    match elem {
        Some(t) => {
            assert(l.subrange(0, 5) =~= "List#"@);
            assert(m.subrange(0, 4) =~= "Map#"@);
        },
        None => {},
    }
    assert(l[0] == 'L');
    assert(m[0] == 'M');
    assert("Map"@[0] == 'M' && "Map#"@[0] == 'M');
    assert("List"@[0] == 'L' && "List#"@[0] == 'L');
    if has_prefix(l, "Map#"@) {
        lemma_prefix_first(l, "Map#"@);
    }
    if has_prefix(m, "List#"@) {
        lemma_prefix_first(m, "List#"@);
    }
}

/// An owner tag names a runtime map handle.
pub open spec fn map_owner_spec(owner: Seq<char>) -> bool {
    owner == "Map"@ || has_prefix(owner, "Map#"@)
}

/// An owner tag names a runtime list handle.
pub open spec fn list_owner_spec(owner: Seq<char>) -> bool {
    owner == "List"@ || has_prefix(owner, "List#"@)
}

/// Whether an owner tag names a runtime map handle — value-typed (`Map#i8*`)
/// or bare.
pub fn is_map_owner(owner: &str) -> (r: bool)
    ensures
        r == map_owner_spec(owner@),
{
    str_eq(owner, "Map") || starts_with(owner, "Map#")
}

/// Whether an owner tag names a runtime list handle — element-typed
/// (`List#double`) or bare.
pub fn is_list_owner(owner: &str) -> (r: bool)
    ensures
        r == list_owner_spec(owner@),
{
    str_eq(owner, "List") || starts_with(owner, "List#")
}

/// The value descriptor recorded on a map handle's owner tag, if any.
pub fn tagged_map_elem(v: &Value) -> (r: Option<String>)
    ensures
        opt_text(r) == tag_suffix(opt_text(v.osp_ty), "Map#"@),
{
    crate::llty::elem_of_tag(v, "Map#")
}

/// The element descriptor recorded on a list handle's owner tag, if any.
pub fn tagged_elem(v: &Value) -> (r: Option<String>)
    ensures
        opt_text(r) == tag_suffix(opt_text(v.osp_ty), "List#"@),
{
    crate::llty::elem_of_tag(v, "List#")
}

/// The runtime's element-kind flag for a value about to be stored: `"1"` when
/// its type is a managed pointer, `"0"` for a scalar. The container releases
/// exactly the slots it names when it dies.
pub fn managed_flag(v: &Value) -> (r: &'static str)
    ensures
        r@ == if v.ty.managed() {
            "1"@
        } else {
            "0"@
        },
{
    if v.ty.is_managed_ptr() {
        "1"
    } else {
        "0"
    }
}

/// `v` is a plain runtime handle in `operand` tagged `owner`.
pub open spec fn handle_value(v: Value, operand: Seq<char>, owner: Seq<char>) -> bool {
    &&& v.operand@ == operand
    &&& v.ty == LType::Ptr
    &&& opt_text(v.osp_ty) == Some(owner)
    &&& v.result_inner is None
    &&& !v.result_inner_is_placeholder
    &&& v.payload_owner is None
    &&& v.fiber_elem is None
    &&& v.fiber_elem_owner is None
    &&& v.fiber_elem_result_inner is None
    &&& v.fiber_elem_payload_owner is None
}

/// The first of two optional texts that is present.
pub open spec fn either(a: Option<Seq<char>>, b: Option<Seq<char>>) -> Option<Seq<char>> {
    match a {
        Some(t) => Some(t),
        None => b,
    }
}

/// Register a fresh runtime handle as owned by the current region.
fn own_handle(cg: &mut Codegen, v: Value) -> (r: Value)
    requires
        old(cg).wf(),
        old(cg).state().lines.len() >= 1,
        old(cg).state().slots < usize::MAX,
        old(cg).state().regs < usize::MAX,
        old(cg).debug_fits(2),
    ensures
        r == v,
        owns(*old(cg), *final(cg), v),
{
    own(cg, &v);
    v
}

/// Start a runtime list builder whose element kind latches on the first push.
pub fn list_builder_new(cg: &mut Codegen) -> (r: String)
    requires
        old(cg).wf(),
        old(cg).state().regs < usize::MAX,
        old(cg).debug_fits(1),
    ensures
        called(*old(cg), *final(cg), r@, "i8*"@, "osprey_list_builder_new"@, ""@, Seq::empty()),
{
    let args: [&str; 0] = [];
    let r = cg.call("i8*", "osprey_list_builder_new", "", &args);
    assert(arg_texts(args@) =~= Seq::<Seq<char>>::empty());
    r
}

/// Start a runtime list builder whose element kind is known up front:
/// `managed` is a literal `0`/`1` or a register holding a source container's
/// flag.
pub fn list_builder_new_of(cg: &mut Codegen, managed: &str) -> (r: String)
    requires
        old(cg).wf(),
        old(cg).state().regs < usize::MAX,
        old(cg).debug_fits(1),
    ensures
        called(*old(cg), *final(cg), r@, "i8*"@, "osprey_list_builder_new_of"@, "i32"@, seq![managed@]),
{
    let args: [&str; 1] = [managed];
    let r = cg.call("i8*", "osprey_list_builder_new_of", "i32", &args);
    assert(arg_texts(args@) =~= seq![managed@]);
    r
}

/// Push an element the builder takes over (the caller already retained it),
/// latching the builder's element kind.
pub fn list_builder_push(cg: &mut Codegen, bld: &str, elem: &str, managed: &str)
    requires
        old(cg).wf(),
        old(cg).debug_fits(1),
    ensures
        called_void(
            *old(cg),
            *final(cg),
            "osprey_list_builder_push_of"@,
            "i8*, i64, i32"@,
            seq![bld@, elem@, managed@],
        ),
{
    let args: [&str; 3] = [bld, elem, managed];
    cg.call_void("osprey_list_builder_push_of", "i8*, i64, i32", &args);
    assert(arg_texts(args@) =~= seq![bld@, elem@, managed@]);
}

/// Push an element borrowed out of another container; the runtime retains
/// it per the builder's own element kind.
pub fn list_builder_push_borrowed(cg: &mut Codegen, bld: &str, elem: &str)
    requires
        old(cg).wf(),
        old(cg).debug_fits(1),
    ensures
        called_void(*old(cg), *final(cg), "osprey_list_builder_push_borrowed"@, "i8*, i64"@, seq![bld@, elem@]),
{
    let args: [&str; 2] = [bld, elem];
    cg.call_void("osprey_list_builder_push_borrowed", "i8*, i64", &args);
    assert(arg_texts(args@) =~= seq![bld@, elem@]);
}

/// Seal a builder into a runtime list handle owned by the current region.
pub fn list_builder_seal(cg: &mut Codegen, bld: &str) -> (r: Value)
    requires
        old(cg).wf(),
        old(cg).state().slots < usize::MAX,
        old(cg).state().regs + 2 <= usize::MAX,
        old(cg).debug_fits(3),
    ensures
        handle_value(r, crate::builder::register(old(cg).state().regs as nat), "List"@),
        exists|mid: Codegen|
            called(*old(cg), mid, r.operand@, "i8*"@, "osprey_list_builder_seal"@, "i8*"@, seq![bld@])
                && #[trigger] owns(mid, *final(cg), r),
{
    let args: [&str; 1] = [bld];
    let reg = cg.call("i8*", "osprey_list_builder_seal", "i8*", &args);
    assert(arg_texts(args@) =~= seq![bld@]);
    let ghost mid = *cg;
    let v = Value::handle(reg.as_str(), LIST_OWNER);
    proof {
        reveal_strlit("List");
    }
    let r = own_handle(cg, v);
    assert(called(*old(cg), mid, r.operand@, "i8*"@, "osprey_list_builder_seal"@, "i8*"@, seq![bld@]));
    r
}

/// Emit `cname` on two runtime handles and own the resulting handle, tagged
/// `owner`.
fn combine_handles(cg: &mut Codegen, a: &Value, b: &Value, cname: &str, owner: &str) -> (r: Value)
    requires
        old(cg).wf(),
        old(cg).state().slots < usize::MAX,
        old(cg).state().regs + 2 <= usize::MAX,
        old(cg).debug_fits(3),
    ensures
        handle_value(r, crate::builder::register(old(cg).state().regs as nat), owner@),
        exists|mid: Codegen|
            called(*old(cg), mid, r.operand@, "i8*"@, cname@, "i8*, i8*"@, seq![a.operand@, b.operand@])
                && #[trigger] owns(mid, *final(cg), r),
{
    let args: [&str; 2] = [a.operand.as_str(), b.operand.as_str()];
    let reg = cg.call("i8*", cname, "i8*, i8*", &args);
    assert(arg_texts(args@) =~= seq![a.operand@, b.operand@]);
    let ghost mid = *cg;
    let v = Value::handle(reg.as_str(), owner);
    let r = own_handle(cg, v);
    assert(called(*old(cg), mid, r.operand@, "i8*"@, cname@, "i8*, i8*"@, seq![a.operand@, b.operand@]));
    r
}

/// The first of two optional strings that is present.
fn either_of(a: Option<String>, b: Option<String>) -> (r: Option<String>)
    ensures
        opt_text(r) == either(opt_text(a), opt_text(b)),
{
    match a {
        Some(t) => Some(t),
        None => b,
    }
}

/// `osprey_list_concat` on two runtime list handles, owned by the current
/// region. Both hold the same element type, so either operand's tag types
/// the result.
pub fn concat_handles(cg: &mut Codegen, a: &Value, b: &Value) -> (r: Value)
    requires
        old(cg).wf(),
        old(cg).state().slots < usize::MAX,
        old(cg).state().regs + 2 <= usize::MAX,
        old(cg).debug_fits(3),
    ensures
        handle_value(
            r,
            crate::builder::register(old(cg).state().regs as nat),
            tagged_owner(
                "List#"@,
                "List"@,
                either(tag_suffix(opt_text(a.osp_ty), "List#"@), tag_suffix(opt_text(b.osp_ty), "List#"@)),
            ),
        ),
        exists|mid: Codegen|
            called(
                *old(cg),
                mid,
                r.operand@,
                "i8*"@,
                "osprey_list_concat"@,
                "i8*, i8*"@,
                seq![a.operand@, b.operand@],
            ) && #[trigger] owns(mid, *final(cg), r),
{
    let elem = either_of(tagged_elem(a), tagged_elem(b));
    let owner = match &elem {
        Some(t) => list_owner(Some(t.as_str())),
        None => list_owner(None),
    };
    combine_handles(cg, a, b, "osprey_list_concat", owner.as_str())
}

/// `osprey_map_merge` on two runtime map handles (right-biased), owned by
/// the current region; either operand's value tag types the result.
pub fn merge_handles(cg: &mut Codegen, a: &Value, b: &Value) -> (r: Value)
    requires
        old(cg).wf(),
        old(cg).state().slots < usize::MAX,
        old(cg).state().regs + 2 <= usize::MAX,
        old(cg).debug_fits(3),
    ensures
        handle_value(
            r,
            crate::builder::register(old(cg).state().regs as nat),
            tagged_owner(
                "Map#"@,
                "Map"@,
                either(tag_suffix(opt_text(a.osp_ty), "Map#"@), tag_suffix(opt_text(b.osp_ty), "Map#"@)),
            ),
        ),
        exists|mid: Codegen|
            called(
                *old(cg),
                mid,
                r.operand@,
                "i8*"@,
                "osprey_map_merge"@,
                "i8*, i8*"@,
                seq![a.operand@, b.operand@],
            ) && #[trigger] owns(mid, *final(cg), r),
{
    let elem = either_of(tagged_map_elem(a), tagged_map_elem(b));
    let owner = match &elem {
        Some(t) => map_owner(Some(t.as_str())),
        None => map_owner(None),
    };
    combine_handles(cg, a, b, "osprey_map_merge", owner.as_str())
}

} // verus!
