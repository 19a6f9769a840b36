//! Numeric and boolean coercions between machine types: the few places where
//! an operand arrives wider or narrower than the instruction wants (a bool
//! used as an int, an int used as a condition, an int promoted to a double
//! for mixed arithmetic, any value travelling as the uniform `i64` word).

use crate::builder::{emitted, lemma_emitted_none, lemma_emitted_trans, register, same_externs, unchanged, Codegen};
use crate::error::CodegenError;
use crate::llty::{LType, Value};
use crate::text::owned;
use vstd::prelude::*;
use vstd::string::StringExecFns;

verus! {

/// `r` is the coercion's failure with message `why`.
pub open spec fn invalid_with(r: Result<Value, CodegenError>, why: Seq<char>) -> bool {
    r matches Err(CodegenError::Invalid(w)) && w@ == why
}

/// `w` is a plain value of type `ty` held in register `n`.
pub open spec fn in_register(w: Value, n: nat, ty: LType) -> bool {
    w.operand@ == register(n) && w.ty == ty && w.is_plain()
}

/// The types that coerce to `i64`.
pub open spec fn integer_ok(ty: LType) -> bool {
    ty == LType::I64 || ty == LType::I1 || ty == LType::I32 || ty == LType::Double
}

/// The instruction that widens an operand of type `ty` to `i64`, if one is
/// needed.
pub open spec fn to_i64_rhs(ty: LType, operand: Seq<char>) -> Option<Seq<char>> {
    match ty {
        LType::I1 => Some("zext i1 "@ + operand + " to i64"@),
        LType::I32 => Some("sext i32 "@ + operand + " to i64"@),
        LType::Double => Some("fptosi double "@ + operand + " to i64"@),
        _ => None,
    }
}

/// The instructions that coerce `v` to `i64`, the first register free
/// being `n`.
pub open spec fn i64_bodies(v: Value, n: nat) -> Seq<Seq<char>> {
    match to_i64_rhs(v.ty, v.operand@) {
        Some(rhs) => seq![register(n) + " = "@ + rhs],
        None => Seq::empty(),
    }
}

/// The registers [`i64_bodies`] draws.
pub open spec fn i64_regs(v: Value) -> nat {
    if to_i64_rhs(v.ty, v.operand@) is Some {
        1
    } else {
        0
    }
}

/// The `i64` operand `v` coerces to, the first register free being `n`.
pub open spec fn i64_operand(v: Value, n: nat) -> Seq<char> {
    if to_i64_rhs(v.ty, v.operand@) is Some {
        register(n)
    } else {
        v.operand@
    }
}

/// Coerce to `i64`: a bool zero-extends, an `i32` sign-extends, a double
/// truncates toward zero; a string or handle is an error.
pub fn as_i64(cg: &mut Codegen, v: Value) -> (r: Result<Value, CodegenError>)
    requires
        old(cg).wf(),
        old(cg).state().regs < usize::MAX,
        old(cg).debug_fits(1),
    ensures
        final(cg).wf(),
        integer_ok(v.ty) ==> {
            let n = old(cg).state().regs as nat;
            &&& r is Ok
            &&& emitted(*old(cg), *final(cg), i64_bodies(v, n), i64_regs(v))
            &&& same_externs(*old(cg), *final(cg))
            &&& r->Ok_0.operand@ == i64_operand(v, n)
            &&& v.ty == LType::I64 ==> r->Ok_0 == v && unchanged(*old(cg), *final(cg))
            &&& v.ty != LType::I64 ==> in_register(r->Ok_0, n, LType::I64)
        },
        !integer_ok(v.ty) ==> invalid_with(r, "expected an integer, found a string/handle"@) && unchanged(
            *old(cg),
            *final(cg),
        ),
{
    let opcode = match v.ty {
        LType::I64 => {
            proof {
                lemma_emitted_none(*cg);
            }
            return Ok(v);
        },
        LType::I1 => "zext i1 ",
        LType::I32 => "sext i32 ",
        LType::Double => "fptosi double ",
        _ => {
            return Err(CodegenError::invalid("expected an integer, found a string/handle"));
        },
    };
    let mut rhs = owned(opcode);
    rhs.append(v.operand.as_str());
    rhs.append(" to i64");
    let reg = cg.emit_reg(rhs.as_str());
    Ok(Value::new(reg.as_str(), LType::I64))
}

/// Coerce to `i1` by truthiness: an integer is true when non-zero; a double,
/// string or handle is an error.
pub fn as_i1(cg: &mut Codegen, v: Value) -> (r: Result<Value, CodegenError>)
    requires
        old(cg).wf(),
        old(cg).state().regs < usize::MAX,
        old(cg).debug_fits(1),
    ensures
        final(cg).wf(),
        v.ty == LType::I1 ==> r == Ok::<Value, CodegenError>(v) && unchanged(*old(cg), *final(cg)),
        (v.ty == LType::I64 || v.ty == LType::I32) ==> {
            let n = old(cg).state().regs as nat;
            &&& r is Ok && in_register(r->Ok_0, n, LType::I1)
            &&& emitted(
                *old(cg),
                *final(cg),
                seq![register(n) + " = "@ + "icmp ne "@ + v.ty.spelling() + " "@ + v.operand@ + ", 0"@],
                1,
            )
            &&& same_externs(*old(cg), *final(cg))
        },
        !(v.ty == LType::I1 || v.ty == LType::I64 || v.ty == LType::I32) ==> invalid_with(
            r,
            "expected a bool"@,
        ) && unchanged(*old(cg), *final(cg)),
{
    match v.ty {
        LType::I1 => Ok(v),
        LType::I64 | LType::I32 => {
            let mut rhs = owned("icmp ne ");
            rhs.append(v.ty.as_str());
            rhs.append(" ");
            rhs.append(v.operand.as_str());
            rhs.append(", 0");
            let reg = cg.emit_reg(rhs.as_str());
            assert(seq![reg@ + " = "@ + rhs@] =~~= seq![
                register(old(cg).state().regs as nat) + " = "@ + "icmp ne "@ + v.ty.spelling() + " "@ + v.operand@
                    + ", 0"@,
            ]);
            Ok(Value::new(reg.as_str(), LType::I1))
        },
        _ => Err(CodegenError::invalid("expected a bool")),
    }
}

/// The instruction that widens a plain operand of type `ty` to the uniform
/// `i64` word, if one is needed.
pub open spec fn word_rhs(ty: LType, operand: Seq<char>) -> Option<Seq<char>> {
    match ty {
        LType::I64 => None,
        LType::Str | LType::Ptr | LType::Any => Some(
            "ptrtoint "@ + ty.spelling() + " "@ + operand + " to i64"@,
        ),
        LType::I1 | LType::I32 => Some("zext "@ + ty.spelling() + " "@ + operand + " to i64"@),
        LType::Double => Some("bitcast double "@ + operand + " to i64"@),
    }
}

/// The instructions that widen `v` to the uniform `i64` word, the first
/// register free being `n`: a Result's block pointer through `i8*`.
pub open spec fn word_bodies(v: Value, n: nat) -> Seq<Seq<char>> {
    if v.result_inner is Some {
        seq![
            register(n) + " = "@ + "bitcast "@ + v.travels_as() + " "@ + v.operand@ + " to i8*"@,
            register(n + 1) + " = "@ + "ptrtoint i8* "@ + register(n) + " to i64"@,
        ]
    } else {
        match word_rhs(v.ty, v.operand@) {
            Some(rhs) => seq![register(n) + " = "@ + rhs],
            None => Seq::empty(),
        }
    }
}

/// The registers [`word_bodies`] draws.
pub open spec fn word_regs(v: Value) -> nat {
    if v.result_inner is Some {
        2
    } else if word_rhs(v.ty, v.operand@) is Some {
        1
    } else {
        0
    }
}

/// The `i64` word `v` widens to, the first register free being `n`.
pub open spec fn word_operand(v: Value, n: nat) -> Seq<char> {
    if word_regs(v) == 0 {
        v.operand@
    } else {
        register((n + word_regs(v) - 1) as nat)
    }
}

/// Widen any value to the uniform `i64` element word: a pointer by
/// `ptrtoint`, a narrow integer by `zext`, a double by `bitcast`. A Result
/// travels as its block pointer, first normalised to `i8*` (its payload is
/// never read).
pub fn box_to_i64(cg: &mut Codegen, v: Value) -> (r: Value)
    requires
        old(cg).wf(),
        old(cg).state().regs + 2 <= usize::MAX,
        old(cg).debug_fits(2),
    ensures
        final(cg).wf(),
        same_externs(*old(cg), *final(cg)),
        emitted(*old(cg), *final(cg), word_bodies(v, old(cg).state().regs as nat), word_regs(v)),
        r.operand@ == word_operand(v, old(cg).state().regs as nat),
        word_regs(v) > 0 ==> r.ty == LType::I64 && r.is_plain(),
        word_regs(v) == 0 ==> r == v,
        v.result_inner is Some ==> {
            let n = old(cg).state().regs as nat;
            &&& in_register(r, n + 1, LType::I64)
            &&& emitted(
                *old(cg),
                *final(cg),
                seq![
                    register(n) + " = "@ + "bitcast "@ + v.travels_as() + " "@ + v.operand@ + " to i8*"@,
                    register(n + 1) + " = "@ + "ptrtoint i8* "@ + register(n) + " to i64"@,
                ],
                2,
            )
        },
        v.result_inner is None ==> match word_rhs(v.ty, v.operand@) {
            Some(rhs) => in_register(r, old(cg).state().regs as nat, LType::I64) && emitted(
                *old(cg),
                *final(cg),
                seq![register(old(cg).state().regs as nat) + " = "@ + rhs],
                1,
            ),
            None => r == v && unchanged(*old(cg), *final(cg)),
        },
{
    if v.result_inner.is_some() {
        let ghost c0 = *cg;
        let mut cast = owned("bitcast ");
        let ty = v.llvm_ty();
        cast.append(ty.as_str());
        cast.append(" ");
        cast.append(v.operand.as_str());
        cast.append(" to i8*");
        let ptr = cg.emit_reg(cast.as_str());
        let ghost c1 = *cg;
        let mut word = owned("ptrtoint i8* ");
        word.append(ptr.as_str());
        word.append(" to i64");
        let reg = cg.emit_reg(word.as_str());
        proof {
            lemma_emitted_trans(c0, c1, *cg, seq![ptr@ + " = "@ + cast@], 1, seq![reg@ + " = "@ + word@], 1);
            let n = c0.state().regs as nat;
            assert(seq![ptr@ + " = "@ + cast@] + seq![reg@ + " = "@ + word@] =~~= seq![
                register(n) + " = "@ + "bitcast "@ + v.travels_as() + " "@ + v.operand@ + " to i8*"@,
                register(n + 1) + " = "@ + "ptrtoint i8* "@ + register(n) + " to i64"@,
            ]);
        }
        return Value::new(reg.as_str(), LType::I64);
    }
    let mut rhs = match v.ty {
        LType::I64 => {
            proof {
                lemma_emitted_none(*cg);
            }
            return v;
        },
        LType::Str | LType::Ptr | LType::Any => {
            let mut r = owned("ptrtoint ");
            r.append(v.ty.as_str());
            r.append(" ");
            r
        },
        LType::I1 | LType::I32 => {
            let mut r = owned("zext ");
            r.append(v.ty.as_str());
            r.append(" ");
            r
        },
        LType::Double => owned("bitcast double "),
    };
    rhs.append(v.operand.as_str());
    rhs.append(" to i64");
    assert(rhs@ =~= word_rhs(v.ty, v.operand@)->0);
    let reg = cg.emit_reg(rhs.as_str());
    Value::new(reg.as_str(), LType::I64)
}

/// The instruction that recovers a value of type `ty` from the uniform `i64`
/// word `raw`, if one is needed.
pub open spec fn unword_rhs(raw: Seq<char>, ty: LType) -> Option<Seq<char>> {
    match ty {
        LType::I64 => None,
        LType::Str | LType::Ptr | LType::Any => Some("inttoptr i64 "@ + raw + " to i8*"@),
        LType::I1 => Some("trunc i64 "@ + raw + " to i1"@),
        LType::I32 => Some("trunc i64 "@ + raw + " to i32"@),
        LType::Double => Some("bitcast i64 "@ + raw + " to double"@),
    }
}

/// The inverse of [`box_to_i64`]: recover a value of `ty` from the uniform
/// `i64` word `raw`. A pointer by `inttoptr`, a narrow integer by `trunc`, a
/// double by `bitcast`; an `i64` passes through.
pub fn unbox_from_i64(cg: &mut Codegen, raw: &str, ty: LType) -> (r: Value)
    requires
        old(cg).wf(),
        old(cg).state().regs < usize::MAX,
        old(cg).debug_fits(1),
    ensures
        final(cg).wf(),
        r.ty == ty,
        r.is_plain(),
        same_externs(*old(cg), *final(cg)),
        match unword_rhs(raw@, ty) {
            Some(rhs) => r.operand@ == register(old(cg).state().regs as nat) && emitted(
                *old(cg),
                *final(cg),
                seq![register(old(cg).state().regs as nat) + " = "@ + rhs],
                1,
            ),
            None => r.operand@ == raw@ && unchanged(*old(cg), *final(cg)),
        },
{
    let mut rhs = match ty {
        LType::I64 => {
            return Value::new(raw, LType::I64);
        },
        LType::Str | LType::Ptr | LType::Any => owned("inttoptr i64 "),
        LType::I1 => owned("trunc i64 "),
        LType::I32 => owned("trunc i64 "),
        LType::Double => owned("bitcast i64 "),
    };
    rhs.append(raw);
    match ty {
        LType::I1 => rhs.append(" to i1"),
        LType::I32 => rhs.append(" to i32"),
        LType::Double => rhs.append(" to double"),
        _ => rhs.append(" to i8*"),
    }
    let reg = cg.emit_reg(rhs.as_str());
    Value::new(reg.as_str(), ty)
}

/// A container's uniform `i64` element word, recovered at the element type
/// its owner tag records; an untagged element stays the raw word.
pub fn from_word(cg: &mut Codegen, raw: &str, elem: Option<LType>) -> (r: Value)
    requires
        old(cg).wf(),
        old(cg).state().regs < usize::MAX,
        old(cg).debug_fits(1),
    ensures
        final(cg).wf(),
        r.is_plain(),
        same_externs(*old(cg), *final(cg)),
        match elem {
            Some(ty) => r.ty == ty && match unword_rhs(raw@, ty) {
                Some(rhs) => r.operand@ == register(old(cg).state().regs as nat) && emitted(
                    *old(cg),
                    *final(cg),
                    seq![register(old(cg).state().regs as nat) + " = "@ + rhs],
                    1,
                ),
                None => r.operand@ == raw@ && unchanged(*old(cg), *final(cg)),
            },
            None => r.ty == LType::I64 && r.operand@ == raw@ && unchanged(*old(cg), *final(cg)),
        },
{
    match elem {
        Some(ty) => unbox_from_i64(cg, raw, ty),
        None => Value::new(raw, LType::I64),
    }
}

/// The types that coerce to `double`.
pub open spec fn number_ok(ty: LType) -> bool {
    ty == LType::Double || ty == LType::I64 || ty == LType::I1
}

/// The instructions that coerce `v` to `double`, the first register free
/// being `n`: a bool through `i64`.
pub open spec fn double_bodies(v: Value, n: nat) -> Seq<Seq<char>> {
    match v.ty {
        LType::I64 => seq![register(n) + " = "@ + "sitofp i64 "@ + v.operand@ + " to double"@],
        LType::I1 => seq![
            register(n) + " = "@ + "zext i1 "@ + v.operand@ + " to i64"@,
            register(n + 1) + " = "@ + "sitofp i64 "@ + register(n) + " to double"@,
        ],
        _ => Seq::empty(),
    }
}

/// The registers [`double_bodies`] draws.
pub open spec fn double_regs(v: Value) -> nat {
    match v.ty {
        LType::I64 => 1,
        LType::I1 => 2,
        _ => 0,
    }
}

/// The `double` operand `v` coerces to, the first register free being `n`.
pub open spec fn double_operand(v: Value, n: nat) -> Seq<char> {
    match v.ty {
        LType::I64 => register(n),
        LType::I1 => register(n + 1),
        _ => v.operand@,
    }
}

/// Coerce to `double`, promoting an integer operand for mixed arithmetic (a
/// bool through `i64`); an `i32`, string or handle is an error.
pub fn as_double(cg: &mut Codegen, v: Value) -> (r: Result<Value, CodegenError>)
    requires
        old(cg).wf(),
        old(cg).state().regs + 2 <= usize::MAX,
        old(cg).debug_fits(2),
    ensures
        final(cg).wf(),
        number_ok(v.ty) ==> {
            let n = old(cg).state().regs as nat;
            &&& r is Ok
            &&& emitted(*old(cg), *final(cg), double_bodies(v, n), double_regs(v))
            &&& same_externs(*old(cg), *final(cg))
            &&& r->Ok_0.operand@ == double_operand(v, n)
            &&& v.ty == LType::Double ==> r->Ok_0 == v && unchanged(*old(cg), *final(cg))
            &&& v.ty != LType::Double ==> in_register(r->Ok_0, (n + double_regs(v) - 1) as nat, LType::Double)
        },
        !number_ok(v.ty) ==> invalid_with(r, "expected a number"@) && unchanged(*old(cg), *final(cg)),
{
    match v.ty {
        LType::Double => {
            proof {
                lemma_emitted_none(*cg);
            }
            Ok(v)
        },
        LType::I64 => {
            let mut rhs = owned("sitofp i64 ");
            rhs.append(v.operand.as_str());
            rhs.append(" to double");
            let reg = cg.emit_reg(rhs.as_str());
            assert(seq![reg@ + " = "@ + rhs@] =~~= double_bodies(v, old(cg).state().regs as nat));
            Ok(Value::new(reg.as_str(), LType::Double))
        },
        LType::I1 => {
            let ghost c0 = *cg;
            let mut widen = owned("zext i1 ");
            widen.append(v.operand.as_str());
            widen.append(" to i64");
            let wide = cg.emit_reg(widen.as_str());
            let ghost c1 = *cg;
            let mut rhs = owned("sitofp i64 ");
            rhs.append(wide.as_str());
            rhs.append(" to double");
            let reg = cg.emit_reg(rhs.as_str());
            proof {
                lemma_emitted_trans(c0, c1, *cg, seq![wide@ + " = "@ + widen@], 1, seq![reg@ + " = "@ + rhs@], 1);
                assert(seq![wide@ + " = "@ + widen@] + seq![reg@ + " = "@ + rhs@] =~~= double_bodies(
                    v,
                    c0.state().regs as nat,
                ));
            }
            Ok(Value::new(reg.as_str(), LType::Double))
        },
        _ => Err(CodegenError::invalid("expected a number")),
    }
}

} // verus!
