//! Owner tags of GPU buffer handles. A buffer whose element type is known
//! travels as `Gpu#<spelling>` (`Gpu#double`), mirroring the flat list-literal
//! convention (`[]double`) so the tag survives lets, pipes, parameters and
//! returns; otherwise it travels as the bare `GpuBuffer`.

use crate::llty::{opt_text, tag_suffix, LType, Value};
use crate::text::{has_prefix, owned, starts_with, str_eq};
use vstd::prelude::*;
use vstd::string::StringExecFns;

verus! {

/// The owner tag of a buffer whose element type is not statically known.
pub const GPU_OWNER: &'static str = "GpuBuffer";

/// The name the host execution backend reports as its device.
pub const HOST_DEVICE: &'static str = "host";

/// Owner-tag prefix of a buffer whose element `LType` is known.
pub const GPU_TAG: &'static str = "Gpu#";

/// The scalar element a buffer tag suffix names.
pub open spec fn scalar_elem(suffix: Seq<char>) -> Option<LType> {
    if suffix == "double"@ {
        Some(LType::Double)
    } else if suffix == "i1"@ {
        Some(LType::I1)
    } else if suffix == "i64"@ {
        Some(LType::I64)
    } else {
        None
    }
}

/// The scalar element spelled after `prefix` in an owner tag.
pub open spec fn scalar_after(owner: Option<Seq<char>>, prefix: Seq<char>) -> Option<LType> {
    match tag_suffix(owner, prefix) {
        Some(s) => scalar_elem(s),
        None => None,
    }
}

/// The scalar element `LType` spelled after `prefix` in a value's owner tag —
/// `Gpu#double` on buffers, `[]double` on flat list literals.
pub fn elem_of_tag(v: &Value, prefix: &str) -> (r: Option<LType>)
    ensures
        r == scalar_after(opt_text(v.osp_ty), prefix@),
{
    match crate::llty::elem_of_tag(v, prefix) {
        Some(s) => {
            let ss = s.as_str();
            if str_eq(ss, "double") {
                Some(LType::Double)
            } else if str_eq(ss, "i1") {
                Some(LType::I1)
            } else if str_eq(ss, "i64") {
                Some(LType::I64)
            } else {
                None
            }
        },
        None => None,
    }
}

/// The element `LType` recorded on a buffer value's owner tag, if any.
pub fn tagged_elem(v: &Value) -> (r: Option<LType>)
    ensures
        r == scalar_after(opt_text(v.osp_ty), "Gpu#"@),
{
    elem_of_tag(v, "Gpu#")
}

/// The element `LType` tagged on a flat list-literal value (`[]double`), if
/// any.
pub fn list_elem(v: &Value) -> (r: Option<LType>)
    ensures
        r == scalar_after(opt_text(v.osp_ty), "[]"@),
{
    elem_of_tag(v, "[]")
}

/// The owner tag of a buffer holding `elem` words.
pub open spec fn buffer_tag(elem: Option<LType>) -> Seq<char> {
    match elem {
        Some(lt) => "Gpu#"@ + lt.spelling(),
        None => "GpuBuffer"@,
    }
}

/// The owner tag for a buffer holding `elem` words.
pub fn elem_owner(elem: Option<LType>) -> (r: String)
    ensures
        r@ == buffer_tag(elem),
{
    match elem {
        Some(lt) => {
            let mut r = owned("Gpu#");
            r.append(lt.as_str());
            r
        },
        None => owned("GpuBuffer"),
    }
}

/// A buffer of scalar elements gives back the element type its owner tag
/// was made from: reading the tag written for `elem` yields `elem`.
pub proof fn law_buffer_tag_round_trip(elem: LType)
    requires
        elem == LType::Double || elem == LType::I1 || elem == LType::I64,
    ensures
        scalar_after(Some(buffer_tag(Some(elem))), "Gpu#"@) == Some(elem),
{
    let tag = buffer_tag(Some(elem));
    assert(tag.subrange(0, "Gpu#"@.len() as int) =~= "Gpu#"@);
    assert(tag.skip("Gpu#"@.len() as int) =~= elem.spelling());
    reveal_strlit("double");
    reveal_strlit("i1");
    reveal_strlit("i64");
    assert("double"@.len() == 6 && "i1"@.len() == 2 && "i64"@.len() == 3);
    assert("i64"@[1] == '6');
    assert("i1"@[1] == '1');
}

/// Every owner tag a buffer is given names a GPU buffer handle.
pub proof fn law_buffer_tags_name_buffers(elem: Option<LType>)
    ensures
        buffer_owner_spec(buffer_tag(elem)),
{
    if elem is Some {
        let tag = buffer_tag(elem);
        assert(tag.subrange(0, "Gpu#"@.len() as int) =~= "Gpu#"@);
    }
}

/// An owner tag names a GPU buffer handle.
pub open spec fn buffer_owner_spec(owner: Seq<char>) -> bool {
    owner == "GpuBuffer"@ || has_prefix(owner, "Gpu#"@)
}

/// Whether an owner tag names a GPU buffer handle — element-typed
/// (`Gpu#double`) or bare.
pub fn is_buffer_owner(owner: &str) -> (r: bool)
    ensures
        r == buffer_owner_spec(owner@),
{
    str_eq(owner, "GpuBuffer") || starts_with(owner, "Gpu#")
}

} // verus!
