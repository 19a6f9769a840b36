//! The small slice of the LLVM type system the code generator emits. Osprey
//! primitives map to `i64` (int), `i1` (bool) and `i8*` (string); `i32` is the
//! C `main` return and `puts`/`sprintf` result. Records, unions, collections,
//! fibers, and effect closures use opaque pointer values.

use crate::text::{has_prefix, owned, str_eq, strip_prefix};
use vstd::prelude::*;
use vstd::string::StringExecFns;

verus! {

/// An LLVM first-class type the emitter knows how to name and move around.
#[derive(Debug, Clone, Copy, PartialEq, Eq, Hash, Structural)]
pub enum LType {
    /// 64-bit integer — Osprey `int`.
    I64,
    /// 1-bit integer — Osprey `bool`.
    I1,
    /// `i8*` — an Osprey `string` (NUL-terminated C string).
    Str,
    /// 32-bit integer — `main` return / libc call results.
    I32,
    /// `double` — Osprey `float`.
    Double,
    /// `i8*` carrying a runtime handle/pointer (record, list, map, fiber, …),
    /// never strcmp'd or printed as text directly.
    Ptr,
    /// `i8*` to an erased-`any` box `{ i8* desc, i64 payload }`, distinct from
    /// `I64` so ownership, the effect mailbox and rendering can see the
    /// erasure.
    Any,
}

/// The optional text of an optional string.
pub open spec fn opt_text(o: Option<String>) -> Option<Seq<char>> {
    match o {
        Some(s) => Some(s@),
        None => None,
    }
}

/// A copy of an optional string.
pub fn clone_opt(o: &Option<String>) -> (r: Option<String>)
    ensures
        r == *o,
{
    match o {
        Some(s) => Some(s.clone()),
        None => None,
    }
}

impl LType {
    /// The textual LLVM spelling.
    pub open spec fn spelling(self) -> Seq<char> {
        match self {
            LType::I64 => "i64"@,
            LType::I1 => "i1"@,
            LType::I32 => "i32"@,
            LType::Double => "double"@,
            LType::Str | LType::Ptr | LType::Any => "i8*"@,
        }
    }

    /// Whether a slot of this type holds a reference its owner must release.
    pub open spec fn managed(self) -> bool {
        self == LType::Str || self == LType::Ptr || self == LType::Any
    }

    /// The textual LLVM spelling. `Str`, `Ptr` and `Any` are semantically
    /// distinct handles that share the spelling `i8*`.
    pub fn as_str(self) -> (r: &'static str)
        ensures
            r@ == self.spelling(),
    {
        match self {
            LType::I64 => "i64",
            LType::I1 => "i1",
            LType::I32 => "i32",
            LType::Double => "double",
            LType::Str | LType::Ptr | LType::Any => "i8*",
        }
    }

    /// Whether a slot of this type holds a REFERENCE the owner must release —
    /// the one definition every ownership decision keys off.
    pub fn is_managed_ptr(self) -> (r: bool)
        ensures
            r == self.managed(),
    {
        match self {
            LType::Str | LType::Ptr | LType::Any => true,
            _ => false,
        }
    }
}

/// The LLVM literal that zero-initialises a slot of type `ty`.
pub open spec fn zero_of(ty: LType) -> Seq<char> {
    match ty {
        LType::Double => "0.0"@,
        LType::Str | LType::Ptr | LType::Any => "null"@,
        LType::I1 => "false"@,
        LType::I64 | LType::I32 => "0"@,
    }
}

/// The LLVM literal that zero-initialises `ty` — the payload of an `Error`
/// block, an unfilled list slot, an uninitialised accumulator. One table, so a
/// new [`LType`] cannot acquire a different zero in each caller.
pub fn zero_literal(ty: LType) -> (r: &'static str)
    ensures
        r@ == zero_of(ty),
{
    match ty {
        LType::Double => "0.0",
        LType::Str | LType::Ptr | LType::Any => "null",
        LType::I1 => "false",
        LType::I64 | LType::I32 => "0",
    }
}

/// The tag spelling of an erased-`any` element.
pub open spec fn any_tag() -> Seq<char> {
    "any"@
}

/// The tag spelling of a handle element with no owner to name.
pub open spec fn ptr_tag() -> Seq<char> {
    "ptr"@
}

/// The element descriptor after `prefix` in an owner tag, if the tag starts
/// with it.
pub open spec fn tag_suffix(owner: Option<Seq<char>>, prefix: Seq<char>) -> Option<Seq<char>> {
    match owner {
        Some(o) => if has_prefix(o, prefix) {
            Some(o.skip(prefix.len() as int))
        } else {
            None
        },
        None => None,
    }
}

/// A container's owner tag gives back the element spelling it was built
/// from: the descriptor after the prefix is exactly that spelling.
pub proof fn law_tag_round_trip(prefix: Seq<char>, bare: Seq<char>, tag: Seq<char>)
    ensures
        tag_suffix(Some(tagged_owner(prefix, bare, Some(tag))), prefix) == Some(tag),
{
    assert((prefix + tag).subrange(0, prefix.len() as int) =~= prefix);
    assert((prefix + tag).skip(prefix.len() as int) =~= tag);
}

/// Every scalar element spelling names the type it was spelled from, with
/// no owner: what a container's element word is recovered at is what was
/// stored.
pub proof fn law_scalar_tag_round_trip(ty: LType)
    requires
        ty != LType::I32,
    ensures
        scalar_tag(ty) is Some,
        elem_of(scalar_tag(ty)->0) == (ty, None::<Seq<char>>),
{
    reveal_strlit("i64");
    reveal_strlit("double");
    reveal_strlit("i1");
    reveal_strlit("any");
    reveal_strlit("ptr");
    reveal_strlit("i8*");
    assert("i64"@[0] == 'i' && "i64"@[1] == '6');
    assert("any"@[0] == 'a');
    assert("ptr"@[0] == 'p');
    assert("i8*"@[0] == 'i' && "i8*"@[1] == '8');
    assert("double"@.len() == 6 && "i1"@.len() == 2);
    match ty {
        LType::I64 => {},
        LType::Double => {},
        LType::I1 => {},
        LType::Str => {
            assert("i8*"@ != "i64"@);
            assert("i8*"@ != "any"@);
            assert("i8*"@ != "ptr"@);
        },
        LType::Any => {
            assert("any"@ != "i64"@);
        },
        LType::Ptr => {
            assert("ptr"@ != "i64"@);
            assert("ptr"@ != "any"@);
        },
        LType::I32 => {},
    }
}

/// The element descriptor spelled after `prefix` in a value's owner tag:
/// `Gpu#double` on a buffer, `List#double` on a runtime list handle,
/// `[]double` on a flat list literal, `Map#List#i8*` on a map of string lists.
pub fn elem_of_tag(v: &Value, prefix: &str) -> (r: Option<String>)
    ensures
        opt_text(r) == tag_suffix(opt_text(v.osp_ty), prefix@),
{
    match &v.osp_ty {
        Some(o) => strip_prefix(o.as_str(), prefix),
        None => None,
    }
}

/// The element a tag spelling names: the [`LType`] its storage word is
/// recovered at and, for a handle element, the owner to re-tag it with.
pub open spec fn elem_of(tag: Seq<char>) -> (LType, Option<Seq<char>>) {
    if tag == "i64"@ {
        (LType::I64, None)
    } else if tag == "double"@ {
        (LType::Double, None)
    } else if tag == "i1"@ {
        (LType::I1, None)
    } else if tag == any_tag() {
        (LType::Any, None)
    } else if tag == ptr_tag() {
        (LType::Ptr, None)
    } else if tag == "i8*"@ {
        (LType::Str, None)
    } else {
        (LType::Ptr, Some(tag))
    }
}

/// The element a tag spelling names. An erased box is recognised before `i8*`
/// so it is never recovered as a string, and any other spelling names the
/// owner of a handle element — which is what lets `Map#List#i64` hand back a
/// value that still knows it is a `List<int>`.
pub fn elem_of_spelling(tag: &str) -> (r: (LType, Option<String>))
    ensures
        r.0 == elem_of(tag@).0,
        opt_text(r.1) == elem_of(tag@).1,
{
    if str_eq(tag, "i64") {
        (LType::I64, None)
    } else if str_eq(tag, "double") {
        (LType::Double, None)
    } else if str_eq(tag, "i1") {
        (LType::I1, None)
    } else if str_eq(tag, "any") {
        (LType::Any, None)
    } else if str_eq(tag, "ptr") {
        (LType::Ptr, None)
    } else if str_eq(tag, "i8*") {
        (LType::Str, None)
    } else {
        (LType::Ptr, Some(owned(tag)))
    }
}

/// The tag spelling of a scalar element type; `i32` is never an element.
pub open spec fn scalar_tag(ty: LType) -> Option<Seq<char>> {
    match ty {
        LType::I64 | LType::Double | LType::I1 | LType::Str => Some(ty.spelling()),
        LType::Any => Some(any_tag()),
        LType::Ptr => Some(ptr_tag()),
        LType::I32 => None,
    }
}

/// The tag spelling of a scalar element `LType` — the whole vocabulary of a
/// container whose element is never a handle, such as a GPU buffer.
pub fn scalar_spelling(ty: LType) -> (r: Option<&'static str>)
    ensures
        match r {
            Some(s) => scalar_tag(ty) == Some(s@),
            None => scalar_tag(ty) is None,
        },
{
    match ty {
        LType::I64 | LType::Double | LType::I1 | LType::Str => Some(ty.as_str()),
        LType::Any => Some("any"),
        LType::Ptr => Some("ptr"),
        LType::I32 => None,
    }
}

/// The tag spelling of a value used as a container element.
pub open spec fn elem_tag(elem: Value) -> Option<Seq<char>> {
    if elem.ty == LType::Any {
        Some(any_tag())
    } else if elem.result_inner is Some {
        None
    } else {
        match elem.osp_ty {
            Some(o) => Some(o@),
            None => scalar_tag(elem.ty),
        }
    }
}

/// The tag spelling of a value used as a container element: its own owner
/// descriptor when it is a handle that has one, else its scalar spelling. An
/// erased element is tagged by its erasure and nothing else, and a `Result`
/// block is left untagged.
pub fn elem_spelling(elem: &Value) -> (r: Option<String>)
    ensures
        opt_text(r) == elem_tag(*elem),
{
    if elem.ty == LType::Any {
        return Some(owned("any"));
    }
    if elem.result_inner.is_some() {
        return None;
    }
    match &elem.osp_ty {
        Some(o) => Some(o.clone()),
        None => match scalar_spelling(elem.ty) {
            Some(s) => Some(owned(s)),
            None => None,
        },
    }
}

/// The owner tag for a container: `prefix` then the element spelling, or the
/// bare owner when there is no element spelling.
pub open spec fn tagged_owner(prefix: Seq<char>, bare: Seq<char>, elem: Option<Seq<char>>) -> Seq<
    char,
> {
    match elem {
        Some(tag) => prefix + tag,
        None => bare,
    }
}

/// The owner tag for a container holding `elem` words: `<prefix><spelling>`
/// when the element has a spelling the uniform `i64` element ABI would
/// otherwise flatten, the untyped `bare` owner when it has none.
pub fn elem_tagged_owner(prefix: &str, bare: &str, elem: Option<&str>) -> (r: String)
    ensures
        r@ == tagged_owner(
            prefix@,
            bare@,
            match elem {
                Some(t) => Some(t@),
                None => None,
            },
        ),
{
    match elem {
        Some(tag) => {
            let mut r = owned(prefix);
            r.append(tag);
            r
        },
        None => owned(bare),
    }
}

/// `{ T, i8, i8* }`: the LLVM spelling of a `Result<T, E>` heap block.
pub open spec fn result_block(inner: LType) -> Seq<char> {
    "{ "@ + inner.spelling() + ", i8, i8* }"@
}

/// The LLVM spelling of a `Result<T, E>` heap block:
/// `{ T value, i8 disc, i8* errmsg }`. Slot 0 is the success payload; slot 1 the
/// discriminant (0 = Success, 1 = Error); slot 2 the error-message string. The
/// single source of truth for the Result ABI layout.
pub fn result_struct_ty(inner: LType) -> (r: String)
    ensures
        r@ == result_block(inner),
{
    let mut r = owned("{ ");
    r.append(inner.as_str());
    r.append(", i8, i8* }");
    r
}

/// The spelling of a return slot.
pub open spec fn ret_of(ret_ty: LType, ret_inner: Option<LType>) -> Seq<char> {
    match ret_inner {
        Some(inner) => result_block(inner) + "*"@,
        None => ret_ty.spelling(),
    }
}

/// The LLVM spelling of a return slot: the Result block pointer when the
/// callee returns `Result<T, _>`, else the plain scalar type.
pub fn ret_spelling(ret_ty: LType, ret_inner: Option<LType>) -> (r: String)
    ensures
        r@ == ret_of(ret_ty, ret_inner),
{
    match ret_inner {
        Some(inner) => {
            let mut r = result_struct_ty(inner);
            r.append("*");
            r
        },
        None => owned(ret_ty.as_str()),
    }
}

/// `parts` separated by `sep`.
pub open spec fn joined(parts: Seq<Seq<char>>, sep: Seq<char>) -> Seq<char>
    decreases parts.len(),
{
    if parts.len() == 0 {
        Seq::empty()
    } else if parts.len() == 1 {
        parts[0]
    } else {
        joined(parts.drop_last(), sep) + sep + parts.last()
    }
}

/// The texts of a sequence of strings.
pub open spec fn texts(xs: Seq<String>) -> Seq<Seq<char>> {
    xs.map_values(|s: String| s@)
}

/// `parts` separated by `sep`.
pub fn join(parts: &[String], sep: &str) -> (r: String)
    ensures
        r@ == joined(texts(parts@), sep@),
{
    let mut r = String::new();
    let mut i: usize = 0;
    while i < parts.len()
        invariant
            i <= parts@.len(),
            r@ == joined(texts(parts@.subrange(0, i as int)), sep@),
        decreases parts@.len() - i,
    {
        let ghost prev = texts(parts@.subrange(0, i as int));
        let ghost next = texts(parts@.subrange(0, i + 1));
        assert(next.drop_last() =~= prev);
        if i > 0 {
            r.append(sep);
        }
        r.append(parts[i].as_str());
        i = i + 1;
    }
    assert(parts@.subrange(0, parts@.len() as int) =~= parts@);
    r
}

/// Comma-join — the LLVM argument/parameter list shape.
pub fn comma_join(parts: &[String]) -> (r: String)
    ensures
        r@ == joined(texts(parts@), ", "@),
{
    join(parts, ", ")
}

/// An SSA value: a textual operand (`%3`, a literal like `42`, or a
/// `getelementptr` result) paired with its LLVM type.
#[derive(Debug, Clone)]
pub struct Value {
    /// The textual LLVM operand.
    pub operand: String,
    /// The LLVM type the operand travels as.
    pub ty: LType,
    /// For aggregate handles: the Osprey owner type name (`Point`, `Result`,
    /// `List#i64`, …) so field access and `match` can recover the layout.
    pub osp_ty: Option<String>,
    /// When `Some(inner)`, this value is a `Result<inner, _>` carried as a
    /// pointer to a heap block `{ inner, i8 disc, i8* errmsg }`.
    pub result_inner: Option<LType>,
    /// Whether `result_inner` is only the placeholder layout chosen by a bare
    /// `Error { message }` constructor.
    pub result_inner_is_placeholder: bool,
    /// The owner type to tag the success payload with when this Result is
    /// unwrapped.
    pub payload_owner: Option<String>,
    /// For a `Fiber<T>` handle: the element type `T` its result was boxed from.
    pub fiber_elem: Option<LType>,
    /// Aggregate owner metadata for the element carried by a Fiber.
    pub fiber_elem_owner: Option<String>,
    /// Result layout metadata for a `Fiber<Result<T, E>>`.
    pub fiber_elem_result_inner: Option<LType>,
    /// Aggregate owner metadata for the Success payload of a fiber Result.
    pub fiber_elem_payload_owner: Option<String>,
}

impl Value {
    /// `self` carries no metadata beyond its operand and type.
    pub open spec fn is_plain(self) -> bool {
        &&& self.osp_ty is None
        &&& self.result_inner is None
        &&& !self.result_inner_is_placeholder
        &&& self.payload_owner is None
        &&& self.fiber_elem is None
        &&& self.fiber_elem_owner is None
        &&& self.fiber_elem_result_inner is None
        &&& self.fiber_elem_payload_owner is None
    }

    /// A plain SSA value: an operand paired with its LLVM type.
    pub fn new(operand: &str, ty: LType) -> (r: Value)
        ensures
            r.operand@ == operand@,
            r.ty == ty,
            r.is_plain(),
    {
        Value {
            operand: owned(operand),
            ty,
            osp_ty: None,
            result_inner: None,
            result_inner_is_placeholder: false,
            payload_owner: None,
            fiber_elem: None,
            fiber_elem_owner: None,
            fiber_elem_result_inner: None,
            fiber_elem_payload_owner: None,
        }
    }

    /// An aggregate handle tagged with its Osprey owner type name.
    pub fn handle(operand: &str, owner: &str) -> (r: Value)
        ensures
            r.operand@ == operand@,
            r.ty == LType::Ptr,
            opt_text(r.osp_ty) == Some(owner@),
            r.result_inner is None,
            !r.result_inner_is_placeholder,
            r.payload_owner is None,
            r.fiber_elem is None,
            r.fiber_elem_owner is None,
            r.fiber_elem_result_inner is None,
            r.fiber_elem_payload_owner is None,
    {
        Value {
            operand: owned(operand),
            ty: LType::Ptr,
            osp_ty: Some(owned(owner)),
            result_inner: None,
            result_inner_is_placeholder: false,
            payload_owner: None,
            fiber_elem: None,
            fiber_elem_owner: None,
            fiber_elem_result_inner: None,
            fiber_elem_payload_owner: None,
        }
    }

    /// A `Result<inner, _>` value: `operand` points at a
    /// `{ inner, i8 disc, i8* errmsg }` block.
    pub fn result(operand: &str, inner: LType) -> (r: Value)
        ensures
            r.operand@ == operand@,
            r.ty == LType::Ptr,
            opt_text(r.osp_ty) == Some("Result"@),
            r.result_inner == Some(inner),
            !r.result_inner_is_placeholder,
            r.payload_owner is None,
            r.fiber_elem is None,
            r.fiber_elem_owner is None,
            r.fiber_elem_result_inner is None,
            r.fiber_elem_payload_owner is None,
    {
        Value {
            operand: owned(operand),
            ty: LType::Ptr,
            osp_ty: Some(owned("Result")),
            result_inner: Some(inner),
            result_inner_is_placeholder: false,
            payload_owner: None,
            fiber_elem: None,
            fiber_elem_owner: None,
            fiber_elem_result_inner: None,
            fiber_elem_payload_owner: None,
        }
    }

    /// A copy of this value, field for field.
    pub fn duplicate(&self) -> (r: Value)
        ensures
            r == *self,
    {
        Value {
            operand: self.operand.clone(),
            ty: self.ty,
            osp_ty: clone_opt(&self.osp_ty),
            result_inner: self.result_inner,
            result_inner_is_placeholder: self.result_inner_is_placeholder,
            payload_owner: clone_opt(&self.payload_owner),
            fiber_elem: self.fiber_elem,
            fiber_elem_owner: clone_opt(&self.fiber_elem_owner),
            fiber_elem_result_inner: self.fiber_elem_result_inner,
            fiber_elem_payload_owner: clone_opt(&self.fiber_elem_payload_owner),
        }
    }

    /// Tag this fiber handle with its element type so `await` can unbox the
    /// boxed `i64` result back to it.
    pub fn with_fiber_elem(self, elem: &Value) -> (r: Value)
        ensures
            r == (Value {
                fiber_elem: Some(elem.ty),
                fiber_elem_owner: elem.osp_ty,
                fiber_elem_result_inner: elem.result_inner,
                fiber_elem_payload_owner: elem.payload_owner,
                ..self
            }),
    {
        let mut v = self;
        v.fiber_elem = Some(elem.ty);
        v.fiber_elem_owner = clone_opt(&elem.osp_ty);
        v.fiber_elem_result_inner = elem.result_inner;
        v.fiber_elem_payload_owner = clone_opt(&elem.payload_owner);
        v
    }

    /// This value re-tagged with an Osprey owner type name.
    pub fn with_owner(self, owner: Option<String>) -> (r: Value)
        ensures
            r == (Value { osp_ty: owner, ..self }),
    {
        let mut v = self;
        v.osp_ty = owner;
        v
    }

    /// This Result re-tagged with the owner type of its success payload.
    pub fn with_payload_owner(self, owner: Option<String>) -> (r: Value)
        ensures
            r == (Value { payload_owner: owner, ..self }),
    {
        let mut v = self;
        v.payload_owner = owner;
        v
    }

    /// Mark this Result's success-slot layout as the unconstrained placeholder
    /// carried by a bare Error constructor.
    pub fn with_result_inner_placeholder(self) -> (r: Value)
        ensures
            r == (Value { result_inner_is_placeholder: true, ..self }),
    {
        let mut v = self;
        v.result_inner_is_placeholder = true;
        v
    }

    /// The canonical Unit value: the `i64 0` placeholder a side-effecting
    /// expression yields.
    pub fn unit() -> (r: Value)
        ensures
            r.operand@ == "0"@,
            r.ty == LType::I64,
            r.is_plain(),
    {
        Value::new("0", LType::I64)
    }

    /// The LLVM type this value travels as.
    pub open spec fn travels_as(self) -> Seq<char> {
        ret_of(self.ty, self.result_inner)
    }

    /// The LLVM type spelling this value travels as — the precise Result block
    /// pointer for a Result, else the plain [`LType`].
    pub fn llvm_ty(&self) -> (r: String)
        ensures
            r@ == self.travels_as(),
    {
        ret_spelling(self.ty, self.result_inner)
    }

    /// The Result block struct spelling (no pointer), or `None` for a
    /// non-Result.
    pub fn result_struct_ty(&self) -> (r: Option<String>)
        ensures
            opt_text(r) == match self.result_inner {
                Some(inner) => Some(result_block(inner)),
                None => None,
            },
    {
        match self.result_inner {
            Some(inner) => Some(result_struct_ty(inner)),
            None => None,
        }
    }

    /// Render as a typed operand, e.g. `i64 %3` — the form arguments and `ret`
    /// take.
    pub fn typed(&self) -> (r: String)
        ensures
            r@ == self.travels_as() + " "@ + self.operand@,
    {
        let mut r = self.llvm_ty();
        r.append(" ");
        r.append(self.operand.as_str());
        r
    }
}

} // verus!
