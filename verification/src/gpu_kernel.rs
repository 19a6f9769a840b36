//! The lowering choice of the GPU combinators' kernels. A combinator's kernel
//! is either lifted ONCE to a module-scope function with a flat scalar
//! signature (captured free variables become leading "uniform" parameters), or
//! beta-reduced into the host loop. Extraction is a lowering choice, never a
//! semantic one: both produce the same values.

use crate::closure::ParamSig;
use crate::error::CodegenError;
use crate::gpu::is_buffer_owner;
use crate::llty::{opt_text, LType, Value};
use crate::text::{lemma_trimmed_idempotent, owned, str_eq, trim, trimmed};
use vstd::prelude::*;
use vstd::string::StringExecFns;

verus! {

/// The environment switch selecting the GPU kernel lowering.
pub const GPU_KERNELS_ENV: &'static str = "OSPREY_GPU_KERNELS";

/// Which lowering the GPU combinators use for their kernels.
#[derive(Debug, Clone, Copy, PartialEq, Eq, Structural)]
pub enum GpuKernelMode {
    /// Lift each admissible kernel to a module-scope function.
    Extract,
    /// Beta-reduce each lambda kernel into the host loop.
    Inline,
}

impl Default for GpuKernelMode {
    /// Extraction is the default lowering.
    fn default() -> (r: GpuKernelMode)
        ensures
            r == GpuKernelMode::Extract,
    {
        GpuKernelMode::Extract
    }
}

/// The diagnostic for an unrecognised mode spelling `other`.
pub open spec fn bad_mode_message(other: Seq<char>) -> Seq<char> {
    "OSPREY_GPU_KERNELS="@ + other + ": expected `extract` or `inline`"@
}

/// What the setting `value` selects: unset, empty or blank keeps extraction,
/// `extract`/`inline` (surrounding white space ignored) name a lowering, and
/// anything else is an error naming the setting.
pub open spec fn mode_spec(value: Option<Seq<char>>) -> Result<GpuKernelMode, Seq<char>> {
    match value {
        None => Ok(GpuKernelMode::Extract),
        Some(v) => {
            let t = trimmed(v);
            if t.len() == 0 || t == "extract"@ {
                Ok(GpuKernelMode::Extract)
            } else if t == "inline"@ {
                Ok(GpuKernelMode::Inline)
            } else {
                Err(bad_mode_message(t))
            }
        },
    }
}

/// Surrounding white space never changes what a setting selects.
pub proof fn law_mode_ignores_surrounding_white_space(v: Seq<char>)
    ensures
        mode_spec(Some(trimmed(v))) == mode_spec(Some(v)),
{
    lemma_trimmed_idempotent(v);
}

/// The lowering `value` names; an unset (or empty) value keeps extraction, and
/// anything unrecognised is an error rather than a silent fallback.
pub fn mode_of(value: Option<&str>) -> (r: Result<GpuKernelMode, CodegenError>)
    ensures
        match (r, mode_spec(
            match value {
                Some(v) => Some(v@),
                None => None,
            },
        )) {
            (Ok(m), Ok(sm)) => m == sm,
            (Err(e), Err(msg)) => e matches CodegenError::Invalid(w) && w@ == msg,
            _ => false,
        },
{
    match value {
        None => Ok(GpuKernelMode::Extract),
        Some(v) => {
            let t = trim(v);
            let ts = t.as_str();
            if ts.unicode_len() == 0 || str_eq(ts, "extract") {
                Ok(GpuKernelMode::Extract)
            } else if str_eq(ts, "inline") {
                Ok(GpuKernelMode::Inline)
            } else {
                let mut msg = owned("OSPREY_GPU_KERNELS=");
                msg.append(ts);
                msg.append(": expected `extract` or `inline`");
                Err(CodegenError::Invalid(msg))
            }
        },
    }
}

/// The kernel parameter `LType` for a buffer element whose type the owner tag
/// did not pin: the raw word.
pub fn slot(elem: Option<LType>) -> (r: LType)
    ensures
        r == match elem {
            Some(t) => t,
            None => LType::I64,
        },
{
    match elem {
        Some(t) => t,
        None => LType::I64,
    }
}

/// Whether every declared parameter slot is a plain value. A `Result` slot
/// travels as an erased `i8*` and a Fiber slot carries an element shape; both
/// are host-side structure the flat device ABI has no representation for, so a
/// kernel declaring one keeps the inlined lowering.
pub fn flat_slots(params: &[ParamSig]) -> (r: bool)
    ensures
        r == forall|i: int|
            0 <= i < params@.len() ==> (#[trigger] params@[i]).result_inner is None
                && params@[i].fiber is None,
{
    let mut i: usize = 0;
    while i < params.len()
        invariant
            i <= params@.len(),
            forall|k: int|
                0 <= k < i ==> (#[trigger] params@[k]).result_inner is None && params@[k].fiber
                    is None,
        decreases params@.len() - i,
    {
        if params[i].result_inner.is_some() || params[i].fiber.is_some() {
            return false;
        }
        i = i + 1;
    }
    true
}

/// A capture can travel as an extracted-kernel parameter.
pub open spec fn uniform_ok(v: Value) -> bool {
    &&& v.result_inner is None
    &&& v.fiber_elem is None
    &&& match v.ty {
        LType::I64 | LType::Double | LType::I1 => true,
        LType::Ptr => match opt_text(v.osp_ty) {
            Some(o) => crate::gpu::buffer_owner_spec(o),
            None => false,
        },
        LType::Str | LType::I32 | LType::Any => false,
    }
}

/// Whether a capture can travel as an extracted-kernel parameter: a scalar
/// word, or a GPU buffer handle. A string, a record/union handle, an erased
/// box, a `Result` block or a Fiber carries host-side structure the flat
/// device ABI has no slot for.
pub fn uniform_admissible(v: &Value) -> (r: bool)
    ensures
        r == uniform_ok(*v),
{
    if v.result_inner.is_some() || v.fiber_elem.is_some() {
        return false;
    }
    match v.ty {
        LType::I64 | LType::Double | LType::I1 => true,
        LType::Ptr => match &v.osp_ty {
            Some(o) => is_buffer_owner(o.as_str()),
            None => false,
        },
        LType::Str | LType::I32 | LType::Any => false,
    }
}

} // verus!
