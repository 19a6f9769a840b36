//! Expression lowering: the instruction vocabulary (overflow intrinsics,
//! condition codes) and the lowering of comparisons.

use crate::arc::{lemma_owns_grows, own_value, owns};
use crate::builder::{
    alloc_rhs, declares, emitted, grows, lemma_emitted_none, lemma_emitted_trans, lemma_grows_fits,
    lemma_grows_trans, lemma_grows_weaken, lemma_wf_debug, located_lines, next_reg, register, same_externs, Codegen,
    OSP_ALLOC_DECL,
};
use crate::meta::KIND_RAW;
use crate::runtime::{lemma_rendered_grows, render_room, rendered, to_string_value};
use crate::call::{arg_texts, call_text, declaration};
use crate::conv::{
    as_double, as_i64, double_bodies, double_operand, double_regs, i64_bodies, i64_operand, i64_regs,
    in_register, integer_ok, invalid_with, number_ok,
};
use crate::error::CodegenError;
use crate::llty::{LType, Value};
use crate::text::{owned, str_eq};
use vstd::prelude::*;
use vstd::string::StringExecFns;

verus! {

/// The LLVM overflow-intrinsic stem behind a `checked*` builtin.
pub open spec fn intrinsic_of(name: Seq<char>) -> Seq<char> {
    if name == "checkedSub"@ {
        "ssub"@
    } else if name == "checkedMul"@ {
        "smul"@
    } else {
        "sadd"@
    }
}

/// The LLVM overflow-intrinsic stem behind each `checked*` builtin.
pub fn checked_intrinsic(name: &str) -> (r: &'static str)
    ensures
        r@ == intrinsic_of(name@),
{
    if str_eq(name, "checkedSub") {
        "ssub"
    } else if str_eq(name, "checkedMul") {
        "smul"
    } else {
        "sadd"
    }
}

/// The condition code of a comparison.
pub open spec fn cmp_code_of(op: Seq<char>, float: bool) -> Seq<char> {
    if !float {
        if op == "=="@ {
            "eq"@
        } else if op == "!="@ {
            "ne"@
        } else if op == "<"@ {
            "slt"@
        } else if op == "<="@ {
            "sle"@
        } else if op == ">"@ {
            "sgt"@
        } else {
            "sge"@
        }
    } else {
        if op == "=="@ {
            "oeq"@
        } else if op == "!="@ {
            "one"@
        } else if op == "<"@ {
            "olt"@
        } else if op == "<="@ {
            "ole"@
        } else if op == ">"@ {
            "ogt"@
        } else {
            "oge"@
        }
    }
}

/// The LLVM condition code for a comparison `op`. `float` picks the ordered
/// `fcmp` codes (`oeq`, `olt`, …); otherwise the signed-integer / `icmp` codes
/// (`eq`, `slt`, …) — also used on a `strcmp` result. Any other operator is
/// the last one, `>=`.
pub fn cmp_code(op: &str, float: bool) -> (r: &'static str)
    ensures
        r@ == cmp_code_of(op@, float),
{
    if !float {
        if str_eq(op, "==") {
            "eq"
        } else if str_eq(op, "!=") {
            "ne"
        } else if str_eq(op, "<") {
            "slt"
        } else if str_eq(op, "<=") {
            "sle"
        } else if str_eq(op, ">") {
            "sgt"
        } else {
            "sge"
        }
    } else {
        if str_eq(op, "==") {
            "oeq"
        } else if str_eq(op, "!=") {
            "one"
        } else if str_eq(op, "<") {
            "olt"
        } else if str_eq(op, "<=") {
            "ole"
        } else if str_eq(op, ">") {
            "ogt"
        } else {
            "oge"
        }
    }
}

/// Whether values of type `ty` compare as text, through `strcmp`.
pub open spec fn text_like(ty: LType) -> bool {
    ty == LType::Str || ty == LType::Ptr
}

/// The `strcmp` declaration a text comparison needs.
pub open spec fn text_compare_decl() -> Seq<char> {
    declaration("i32"@, "strcmp"@, "i8*, i8*"@)
}

/// Lower the comparison `l op r` to an `i1`: two strings or handles through
/// `strcmp`, a double on either side as an ordered floating comparison (the
/// other side promoted), otherwise as a signed `i64` comparison. The result
/// register is drawn before any operand is converted.
pub fn gen_comparison(cg: &mut Codegen, op: &str, l: Value, r: Value) -> (res: Result<Value, CodegenError>)
    requires
        old(cg).wf(),
        old(cg).state().regs + 5 <= usize::MAX,
        old(cg).debug_fits(5),
    ensures
        final(cg).wf(),
        ({
            let n = next_reg(*old(cg));
            if text_like(l.ty) && text_like(r.ty) {
                &&& res is Ok && in_register(res->Ok_0, n, LType::I1)
                &&& emitted(
                    *old(cg),
                    *final(cg),
                    seq![
                        register(n + 1) + " = "@ + call_text(
                            "i32"@,
                            "strcmp"@,
                            "i8*, i8*"@,
                            seq![l.operand@, r.operand@],
                        ),
                        register(n) + " = icmp "@ + cmp_code_of(op@, false) + " i32 "@ + register(n + 1) + ", 0"@,
                    ],
                    2,
                )
                &&& declares(*old(cg), *final(cg), text_compare_decl())
            } else if l.ty == LType::Double || r.ty == LType::Double {
                if number_ok(l.ty) && number_ok(r.ty) {
                    let nl = n + 1;
                    let nr = nl + double_regs(l);
                    &&& res is Ok && in_register(res->Ok_0, n, LType::I1)
                    &&& emitted(
                        *old(cg),
                        *final(cg),
                        double_bodies(l, nl) + double_bodies(r, nr) + seq![
                            register(n) + " = fcmp "@ + cmp_code_of(op@, true) + " double "@ + double_operand(l, nl)
                                + ", "@ + double_operand(r, nr),
                        ],
                        1 + double_regs(l) + double_regs(r),
                    )
                    &&& same_externs(*old(cg), *final(cg))
                } else {
                    invalid_with(res, "expected a number"@)
                }
            } else {
                if integer_ok(l.ty) && integer_ok(r.ty) {
                    let nl = n + 1;
                    let nr = nl + i64_regs(l);
                    &&& res is Ok && in_register(res->Ok_0, n, LType::I1)
                    &&& emitted(
                        *old(cg),
                        *final(cg),
                        i64_bodies(l, nl) + i64_bodies(r, nr) + seq![
                            register(n) + " = icmp "@ + cmp_code_of(op@, false) + " i64 "@ + i64_operand(l, nl) + ", "@
                                + i64_operand(r, nr),
                        ],
                        1 + i64_regs(l) + i64_regs(r),
                    )
                    &&& same_externs(*old(cg), *final(cg))
                } else {
                    invalid_with(res, "expected an integer, found a string/handle"@)
                }
            }
        }),
{
    let ghost c0 = *cg;
    let ghost n = next_reg(c0);
    let reg = cg.fresh_reg();
    let ghost c1 = *cg;
    proof {
        lemma_emitted_none(c0);
        assert(emitted(c0, c1, Seq::empty(), 1)) by {
            assert(c1.state().lines =~= c0.state().lines + located_lines(Seq::empty(), c0.debug()));
        }
    }
    let is_text_l = l.ty == LType::Str || l.ty == LType::Ptr;
    let is_text_r = r.ty == LType::Str || r.ty == LType::Ptr;
    if is_text_l && is_text_r {
        let args: [&str; 2] = [l.operand.as_str(), r.operand.as_str()];
        let c = cg.call("i32", "strcmp", "i8*, i8*", &args);
        let ghost c2 = *cg;
        let mut text = reg.clone();
        text.append(" = icmp ");
        text.append(cmp_code(op, false));
        text.append(" i32 ");
        text.append(c.as_str());
        text.append(", 0");
        cg.emit(text.as_str());
        proof {
            assert(arg_texts(args@) =~= seq![l.operand@, r.operand@]);
            lemma_emitted_trans(c0, c1, c2, Seq::empty(), 1, seq![c@ + " = "@ + call_text("i32"@, "strcmp"@, "i8*, i8*"@, arg_texts(args@))], 1);
            lemma_emitted_trans(
                c0,
                c2,
                *cg,
                Seq::empty() + seq![c@ + " = "@ + call_text("i32"@, "strcmp"@, "i8*, i8*"@, arg_texts(args@))],
                2,
                seq![text@],
                0,
            );
            assert(Seq::empty() + seq![c@ + " = "@ + call_text("i32"@, "strcmp"@, "i8*, i8*"@, arg_texts(args@))]
                + seq![text@] =~~= seq![
                register(n + 1) + " = "@ + call_text("i32"@, "strcmp"@, "i8*, i8*"@, seq![l.operand@, r.operand@]),
                register(n) + " = icmp "@ + cmp_code_of(op@, false) + " i32 "@ + register(n + 1) + ", 0"@,
            ]);
        }
        return Ok(Value::new(reg.as_str(), LType::I1));
    }
    if l.ty == LType::Double || r.ty == LType::Double {
        let ld = match as_double(cg, l) {
            Ok(v) => v,
            Err(e) => {
                return Err(e);
            },
        };
        let ghost c2 = *cg;
        let rd = match as_double(cg, r) {
            Ok(v) => v,
            Err(e) => {
                return Err(e);
            },
        };
        let ghost c3 = *cg;
        let mut text = reg.clone();
        text.append(" = fcmp ");
        text.append(cmp_code(op, true));
        text.append(" double ");
        text.append(ld.operand.as_str());
        text.append(", ");
        text.append(rd.operand.as_str());
        cg.emit(text.as_str());
        proof {
            let nl = n + 1;
            let nr = nl + double_regs(l);
            lemma_emitted_trans(c0, c1, c2, Seq::empty(), 1, double_bodies(l, nl), double_regs(l));
            lemma_emitted_trans(
                c0,
                c2,
                c3,
                Seq::empty() + double_bodies(l, nl),
                1 + double_regs(l),
                double_bodies(r, nr),
                double_regs(r),
            );
            lemma_emitted_trans(
                c0,
                c3,
                *cg,
                Seq::empty() + double_bodies(l, nl) + double_bodies(r, nr),
                1 + double_regs(l) + double_regs(r),
                seq![text@],
                0,
            );
            assert(Seq::empty() + double_bodies(l, nl) + double_bodies(r, nr) + seq![text@] =~~= double_bodies(l, nl)
                + double_bodies(r, nr) + seq![
                register(n) + " = fcmp "@ + cmp_code_of(op@, true) + " double "@ + double_operand(l, nl) + ", "@
                    + double_operand(r, nr),
            ]);
        }
        return Ok(Value::new(reg.as_str(), LType::I1));
    }
    let li = match as_i64(cg, l) {
        Ok(v) => v,
        Err(e) => {
            return Err(e);
        },
    };
    let ghost c2 = *cg;
    let ri = match as_i64(cg, r) {
        Ok(v) => v,
        Err(e) => {
            return Err(e);
        },
    };
    let ghost c3 = *cg;
    let mut text = reg.clone();
    text.append(" = icmp ");
    text.append(cmp_code(op, false));
    text.append(" i64 ");
    text.append(li.operand.as_str());
    text.append(", ");
    text.append(ri.operand.as_str());
    cg.emit(text.as_str());
    proof {
        let nl = n + 1;
        let nr = nl + i64_regs(l);
        lemma_emitted_trans(c0, c1, c2, Seq::empty(), 1, i64_bodies(l, nl), i64_regs(l));
        lemma_emitted_trans(c0, c2, c3, Seq::empty() + i64_bodies(l, nl), 1 + i64_regs(l), i64_bodies(r, nr), i64_regs(r));
        lemma_emitted_trans(
            c0,
            c3,
            *cg,
            Seq::empty() + i64_bodies(l, nl) + i64_bodies(r, nr),
            1 + i64_regs(l) + i64_regs(r),
            seq![text@],
            0,
        );
        assert(Seq::empty() + i64_bodies(l, nl) + i64_bodies(r, nr) + seq![text@] =~~= i64_bodies(l, nl) + i64_bodies(
            r,
            nr,
        ) + seq![
            register(n) + " = icmp "@ + cmp_code_of(op@, false) + " i64 "@ + i64_operand(l, nl) + ", "@ + i64_operand(
                r,
                nr,
            ),
        ]);
    }
    Ok(Value::new(reg.as_str(), LType::I1))
}

/// The instructions that concatenate the strings `a` and `b` into a fresh
/// buffer, the first register free being `n`: both lengths measured with
/// `osp_strlen`, a buffer one byte longer than their sum allocated, `a`
/// copied in and `b` appended.
pub open spec fn concat_bodies(a: Seq<char>, b: Seq<char>, n: nat) -> Seq<Seq<char>> {
    seq![
        register(n) + " = "@ + call_text("i64"@, "osp_strlen"@, "i8*"@, seq![a]),
        register(n + 1) + " = "@ + call_text("i64"@, "osp_strlen"@, "i8*"@, seq![b]),
        register(n + 2) + " = "@ + "add i64 "@ + register(n) + ", "@ + register(n + 1),
        register(n + 3) + " = "@ + "add i64 "@ + register(n + 2) + ", 1"@,
        register(n + 4) + " = "@ + alloc_rhs(register(n + 3), KIND_RAW),
        register(n + 5) + " = "@ + call_text("i8*"@, "strcpy"@, "i8*, i8*"@, seq![register(n + 4), a]),
        register(n + 6) + " = "@ + call_text("i8*"@, "strcat"@, "i8*, i8*"@, seq![register(n + 4), b]),
    ]
}

/// `after` is `before` with the strings `a` and `b` concatenated into the
/// fresh buffer `out`, owned by the current region.
pub open spec fn concatenated(before: Codegen, after: Codegen, a: Seq<char>, b: Seq<char>, out: Value) -> bool {
    let n = before.state().regs as nat;
    &&& in_register(out, n + 4, LType::Str)
    &&& exists|mid: Codegen|
        {
            &&& emitted(before, mid, concat_bodies(a, b, n), 7)
            &&& mid.state().externs.to_set() == before.state().externs.to_set().insert(
                declaration("i64"@, "osp_strlen"@, "i8*"@),
            ).insert(OSP_ALLOC_DECL@).insert(declaration("i8*"@, "strcpy"@, "i8*, i8*"@)).insert(
                declaration("i8*"@, "strcat"@, "i8*, i8*"@),
            )
            &&& #[trigger] owns(mid, after, out)
        }
}

/// `after` is `before` with the values `l` and `r` rendered as text and the
/// texts concatenated into `out`.
pub open spec fn str_concatenated(before: Codegen, after: Codegen, l: Value, r: Value, out: Value) -> bool {
    exists|c1: Codegen, ls: Value|
        #[trigger] rendered(before, c1, l, ls) && exists|c2: Codegen, rs: Value|
            #[trigger] rendered(c1, c2, r, rs) && concatenated(c2, after, ls.operand@, rs.operand@, out)
}

/// Room for concatenating the renderings of two values.
pub open spec fn concat_room(c: Codegen) -> bool {
    &&& c.wf()
    &&& c.state().lines.len() >= 1
    &&& c.state().regs + 160 <= usize::MAX
    &&& c.state().labels + 160 <= usize::MAX
    &&& c.state().globs + 160 <= usize::MAX
    &&& c.state().slots + 160 <= usize::MAX
    &&& c.debug_fits(160)
}

/// String concatenation: both operands rendered through `toString` (a
/// string stays itself), both lengths measured with the runtime's
/// `osp_strlen` (an `i64` on every target, unlike `size_t`), then
/// `strcpy` and `strcat` into a fresh buffer owned by the current region.
#[verifier::rlimit(100)]
pub fn gen_str_concat(cg: &mut Codegen, l: Value, r: Value) -> (res: Result<Value, CodegenError>)
    requires
        concat_room(*old(cg)),
    ensures
        res is Ok,
        str_concatenated(*old(cg), *final(cg), l, r, res->Ok_0),
{
    let ghost c0 = *cg;
    proof {
        lemma_wf_debug(c0);
    }
    let ls = to_string_value(cg, l)?;
    let ghost c1 = *cg;
    proof {
        lemma_rendered_grows(c0, c1, l, ls);
        lemma_grows_fits(c0, c1, 64, 64);
    }
    let rs = to_string_value(cg, r)?;
    let ghost c2 = *cg;
    proof {
        lemma_rendered_grows(c1, c2, r, rs);
        lemma_grows_trans(c0, c1, c2, 64, 64);
        lemma_grows_fits(c0, c2, 128, 16);
    }
    let a1: [&str; 1] = [ls.operand.as_str()];
    let ll = cg.call("i64", "osp_strlen", "i8*", &a1);
    let ghost d1 = *cg;
    let a2: [&str; 1] = [rs.operand.as_str()];
    let rl = cg.call("i64", "osp_strlen", "i8*", &a2);
    let ghost d2 = *cg;
    let mut add = owned("add i64 ");
    add.append(ll.as_str());
    add.append(", ");
    add.append(rl.as_str());
    let sum = cg.emit_reg(add.as_str());
    let ghost d3 = *cg;
    let mut inc = owned("add i64 ");
    inc.append(sum.as_str());
    inc.append(", 1");
    let total = cg.emit_reg(inc.as_str());
    let ghost d4 = *cg;
    let buf = cg.heap_alloc(total.as_str());
    let ghost d5 = *cg;
    let a3: [&str; 2] = [buf.as_str(), ls.operand.as_str()];
    let _copied = cg.call("i8*", "strcpy", "i8*, i8*", &a3);
    let ghost d6 = *cg;
    let a4: [&str; 2] = [buf.as_str(), rs.operand.as_str()];
    let _joined = cg.call("i8*", "strcat", "i8*, i8*", &a4);
    let ghost mid = *cg;
    let out = own_value(cg, Value::new(buf.as_str(), LType::Str));
    proof {
        let n = c2.state().regs as nat;
        let b = concat_bodies(ls.operand@, rs.operand@, n);
        assert(arg_texts(a1@) =~= seq![ls.operand@]);
        assert(arg_texts(a2@) =~= seq![rs.operand@]);
        assert(arg_texts(a3@) =~= seq![register(n + 4), ls.operand@]);
        assert(arg_texts(a4@) =~= seq![register(n + 4), rs.operand@]);
        assert(seq![sum@ + " = "@ + add@] =~~= seq![b[2]]);
        assert(seq![total@ + " = "@ + inc@] =~~= seq![b[3]]);
        lemma_emitted_trans(c2, d1, d2, seq![b[0]], 1, seq![b[1]], 1);
        assert(seq![b[0]] + seq![b[1]] =~= seq![b[0], b[1]]);
        lemma_emitted_trans(c2, d2, d3, seq![b[0], b[1]], 2, seq![b[2]], 1);
        lemma_emitted_trans(c2, d3, d4, seq![b[0], b[1]] + seq![b[2]], 3, seq![b[3]], 1);
        lemma_emitted_trans(c2, d4, d5, seq![b[0], b[1]] + seq![b[2]] + seq![b[3]], 4, seq![b[4]], 1);
        lemma_emitted_trans(c2, d5, d6, seq![b[0], b[1]] + seq![b[2]] + seq![b[3]] + seq![b[4]], 5, seq![b[5]], 1);
        lemma_emitted_trans(
            c2,
            d6,
            mid,
            seq![b[0], b[1]] + seq![b[2]] + seq![b[3]] + seq![b[4]] + seq![b[5]],
            6,
            seq![b[6]],
            1,
        );
        assert(seq![b[0], b[1]] + seq![b[2]] + seq![b[3]] + seq![b[4]] + seq![b[5]] + seq![b[6]] =~= b);
        assert(mid.state().externs.to_set() =~= c2.state().externs.to_set().insert(
            declaration("i64"@, "osp_strlen"@, "i8*"@),
        ).insert(OSP_ALLOC_DECL@).insert(declaration("i8*"@, "strcpy"@, "i8*, i8*"@)).insert(
            declaration("i8*"@, "strcat"@, "i8*, i8*"@),
        ));
        assert(owns(mid, *cg, out));
        assert(concatenated(c2, *cg, ls.operand@, rs.operand@, out));
        assert(rendered(c1, c2, r, rs));
        assert(rendered(c0, c1, l, ls));
    }
    Ok(out)
}

/// The guards every checked integer division shares, on the `i64` operands
/// `a` and `b`, the first register free being `m`: the divisor is zero, and
/// the `INT64_MIN / -1` pair whose quotient LLVM leaves poison.
pub open spec fn div_guard_bodies(a: Seq<char>, b: Seq<char>, m: nat) -> Seq<Seq<char>> {
    seq![
        register(m) + " = "@ + "icmp eq i64 "@ + b + ", 0"@,
        register(m + 1) + " = "@ + "icmp eq i64 "@ + a + ", -9223372036854775808"@,
        register(m + 2) + " = "@ + "icmp eq i64 "@ + b + ", -1"@,
        register(m + 3) + " = "@ + "and i1 "@ + register(m + 1) + ", "@ + register(m + 2),
    ]
}

/// `res` is the refusal of an operand that is no integer.
pub open spec fn not_integer<T>(res: Result<T, CodegenError>) -> bool {
    res matches Err(CodegenError::Invalid(w)) && w@ == "expected an integer, found a string/handle"@
}

/// Load both operands as `i64` and emit the two guards every checked integer
/// division shares: `div_zero` (the divisor is zero) and `overflow` (the
/// `INT64_MIN / -1` pair). Answers the two operands and the two flags.
#[verifier::rlimit(100)]
pub fn i64_div_guards(cg: &mut Codegen, l: Value, r: Value) -> (res: Result<(Value, Value, String, String), CodegenError>)
    requires
        old(cg).wf(),
        old(cg).state().regs + 6 <= usize::MAX,
        old(cg).debug_fits(6),
    ensures
        final(cg).wf(),
        integer_ok(l.ty) && integer_ok(r.ty) ==> {
            let n = next_reg(*old(cg));
            let wl = i64_regs(l);
            let m = n + wl + i64_regs(r);
            let a = i64_operand(l, n);
            let b = i64_operand(r, n + wl);
            &&& res is Ok
            &&& res->Ok_0.0.operand@ == a && res->Ok_0.0.ty == LType::I64
            &&& res->Ok_0.1.operand@ == b && res->Ok_0.1.ty == LType::I64
            &&& res->Ok_0.2@ == register(m)
            &&& res->Ok_0.3@ == register(m + 3)
            &&& emitted(
                *old(cg),
                *final(cg),
                i64_bodies(l, n) + i64_bodies(r, n + wl) + div_guard_bodies(a, b, m),
                wl + i64_regs(r) + 4,
            )
            &&& same_externs(*old(cg), *final(cg))
        },
        !integer_ok(l.ty) ==> not_integer(res) && crate::builder::unchanged(*old(cg), *final(cg)),
        integer_ok(l.ty) && !integer_ok(r.ty) ==> not_integer(res),
{
    let ghost c0 = *cg;
    let li = as_i64(cg, l)?;
    let ghost c1 = *cg;
    let ri = as_i64(cg, r)?;
    let ghost c2 = *cg;
    let mut t0 = owned("icmp eq i64 ");
    t0.append(ri.operand.as_str());
    t0.append(", 0");
    let div_zero = cg.emit_reg(t0.as_str());
    let ghost c3 = *cg;
    let mut t1 = owned("icmp eq i64 ");
    t1.append(li.operand.as_str());
    t1.append(", -9223372036854775808");
    let lhs_min = cg.emit_reg(t1.as_str());
    let ghost c4 = *cg;
    let mut t2 = owned("icmp eq i64 ");
    t2.append(ri.operand.as_str());
    t2.append(", -1");
    let rhs_neg_one = cg.emit_reg(t2.as_str());
    let ghost c5 = *cg;
    let mut t3 = owned("and i1 ");
    t3.append(lhs_min.as_str());
    t3.append(", ");
    t3.append(rhs_neg_one.as_str());
    let overflow = cg.emit_reg(t3.as_str());
    proof {
        let n = next_reg(c0);
        let wl = i64_regs(l);
        let wr = i64_regs(r);
        let m = n + wl + wr;
        let g = div_guard_bodies(i64_operand(l, n), i64_operand(r, n + wl), m);
        assert(seq![div_zero@ + " = "@ + t0@] =~~= seq![g[0]]);
        assert(seq![lhs_min@ + " = "@ + t1@] =~~= seq![g[1]]);
        assert(seq![rhs_neg_one@ + " = "@ + t2@] =~~= seq![g[2]]);
        assert(seq![overflow@ + " = "@ + t3@] =~~= seq![g[3]]);
        let bl = i64_bodies(l, n);
        let br = i64_bodies(r, n + wl);
        lemma_emitted_trans(c0, c1, c2, bl, wl, br, wr);
        lemma_emitted_trans(c0, c2, c3, bl + br, wl + wr, seq![g[0]], 1);
        lemma_emitted_trans(c0, c3, c4, bl + br + seq![g[0]], wl + wr + 1, seq![g[1]], 1);
        lemma_emitted_trans(c0, c4, c5, bl + br + seq![g[0]] + seq![g[1]], wl + wr + 2, seq![g[2]], 1);
        lemma_emitted_trans(c0, c5, *cg, bl + br + seq![g[0]] + seq![g[1]] + seq![g[2]], wl + wr + 3, seq![g[3]], 1);
        assert(bl + br + seq![g[0]] + seq![g[1]] + seq![g[2]] + seq![g[3]] =~= bl + br + g);
    }
    Ok((li, ri, div_zero, overflow))
}

/// The declaration of the signed-overflow intrinsic with stem `intrinsic`.
pub open spec fn overflow_decl(intrinsic: Seq<char>) -> Seq<char> {
    "declare "@ + "{ i64, i1 }"@ + " @llvm."@ + intrinsic + ".with.overflow.i64(i64, i64)"@
}

/// Emit one LLVM signed-overflow intrinsic on both operands (loaded as
/// `i64`), answering the extraction of its wrapped value (not yet emitted:
/// the caller shapes the success path) and the register of its overflow
/// flag.
#[verifier::rlimit(60)]
pub fn emit_overflow_arith(cg: &mut Codegen, intrinsic: &str, l: Value, r: Value) -> (res: Result<(String, String), CodegenError>)
    requires
        old(cg).wf(),
        old(cg).state().regs + 4 <= usize::MAX,
        old(cg).debug_fits(4),
    ensures
        final(cg).wf(),
        integer_ok(l.ty) && integer_ok(r.ty) ==> {
            let n = old(cg).state().regs as nat;
            let wl = i64_regs(l);
            let m = n + wl + i64_regs(r);
            let a = i64_operand(l, n);
            let b = i64_operand(r, n + wl);
            &&& res is Ok
            &&& res->Ok_0.0@ == "extractvalue "@ + "{ i64, i1 }"@ + " "@ + register(m) + ", 0"@
            &&& res->Ok_0.1@ == register(m + 1)
            &&& emitted(
                *old(cg),
                *final(cg),
                i64_bodies(l, n) + i64_bodies(r, n + wl) + seq![
                    register(m) + " = "@ + "call "@ + "{ i64, i1 }"@ + " @llvm."@ + intrinsic@ + ".with.overflow.i64(i64 "@
                        + a + ", i64 "@ + b + ")"@,
                    register(m + 1) + " = "@ + "extractvalue "@ + "{ i64, i1 }"@ + " "@ + register(m) + ", 1"@,
                ],
                wl + i64_regs(r) + 2,
            )
            &&& final(cg).state().externs.to_set() == old(cg).state().externs.to_set().insert(
                overflow_decl(intrinsic@),
            )
        },
        !integer_ok(l.ty) ==> not_integer(res) && crate::builder::unchanged(*old(cg), *final(cg)),
        integer_ok(l.ty) && !integer_ok(r.ty) ==> not_integer(res),
{
    let ghost c0 = *cg;
    let li = as_i64(cg, l)?;
    let ghost c1 = *cg;
    let ri = as_i64(cg, r)?;
    let ghost c2 = *cg;
    let mut decl = owned("declare ");
    decl.append(OVERFLOW_PAIR);
    decl.append(" @llvm.");
    decl.append(intrinsic);
    decl.append(".with.overflow.i64(i64, i64)");
    cg.add_extern(decl.as_str());
    let ghost c2b = *cg;
    let mut call = owned("call ");
    call.append(OVERFLOW_PAIR);
    call.append(" @llvm.");
    call.append(intrinsic);
    call.append(".with.overflow.i64(i64 ");
    call.append(li.operand.as_str());
    call.append(", i64 ");
    call.append(ri.operand.as_str());
    call.append(")");
    let pair = cg.emit_reg(call.as_str());
    let ghost c3 = *cg;
    let mut ex1 = owned("extractvalue ");
    ex1.append(OVERFLOW_PAIR);
    ex1.append(" ");
    ex1.append(pair.as_str());
    ex1.append(", 1");
    let bad = cg.emit_reg(ex1.as_str());
    let mut wrapped = owned("extractvalue ");
    wrapped.append(OVERFLOW_PAIR);
    wrapped.append(" ");
    wrapped.append(pair.as_str());
    wrapped.append(", 0");
    proof {
        reveal_strlit("{ i64, i1 }");
        let n = c0.state().regs as nat;
        let wl = i64_regs(l);
        let wr = i64_regs(r);
        let m = n + wl + wr;
        let t = seq![
            register(m) + " = "@ + "call "@ + "{ i64, i1 }"@ + " @llvm."@ + intrinsic@ + ".with.overflow.i64(i64 "@
                + i64_operand(l, n) + ", i64 "@ + i64_operand(r, n + wl) + ")"@,
            register(m + 1) + " = "@ + "extractvalue "@ + "{ i64, i1 }"@ + " "@ + register(m) + ", 1"@,
        ];
        assert(OVERFLOW_PAIR@ == "{ i64, i1 }"@);
        assert(seq![pair@ + " = "@ + call@] =~~= seq![t[0]]);
        assert(seq![bad@ + " = "@ + ex1@] =~~= seq![t[1]]);
        let bl = i64_bodies(l, n);
        let br = i64_bodies(r, n + wl);
        lemma_emitted_trans(c0, c1, c2, bl, wl, br, wr);
        assert(emitted(c2, c3, seq![t[0]], 1));
        lemma_emitted_trans(c0, c2, c3, bl + br, wl + wr, seq![t[0]], 1);
        lemma_emitted_trans(c0, c3, *cg, bl + br + seq![t[0]], wl + wr + 1, seq![t[1]], 1);
        assert(bl + br + seq![t[0]] + seq![t[1]] =~= bl + br + t);
        assert(decl@ =~= overflow_decl(intrinsic@));
    }
    Ok((wrapped, bad))
}

/// The LLVM type of a signed-overflow intrinsic's result: the wrapped value
/// and the overflow flag.
pub const OVERFLOW_PAIR: &'static str = "{ i64, i1 }";

/// An open guarded `Result` construction: the block the failure path takes,
/// the join, and the owner count of the innermost frame before either path
/// allocated its block.
pub struct ResultGuard {
    pub bad: String,
    pub end: String,
    pub mark: usize,
}

/// Open a guarded `Result`: branch on the `i1` flag `bad` to a failure block
/// or a success block (opened now), with the join drawn too; the code up to
/// the join runs on one path only, so the ledger is told.
pub fn open_result_guard(cg: &mut Codegen, bad: &str) -> (g: ResultGuard)
    requires
        old(cg).wf(),
        old(cg).state().labels + 3 <= usize::MAX,
        old(cg).debug_fits(1),
    ensures
        ({
            let l = old(cg).state().labels as nat;
            let fr = old(cg).state().arc.frames();
            &&& g.bad@ == crate::builder::label(l)
            &&& g.end@ == crate::builder::label(l + 2)
            &&& g.mark == (if fr.len() > 0 {
                fr.last().len()
            } else {
                0
            })
            &&& final(cg).wf()
            &&& final(cg).state() == (crate::builder::Emission {
                labels: (l + 3) as usize,
                lines: old(cg).state().lines.push(
                    crate::builder::instruction(
                        "br i1 "@ + bad@ + ", label %"@ + crate::builder::label(l) + ", label %"@
                            + crate::builder::label(l + 1),
                        crate::builder::location_of(old(cg).debug()),
                    ),
                ).push(crate::builder::label(l + 1) + ":"@),
                block: crate::builder::label(l + 1),
                arc: final(cg).state().arc,
                ..old(cg).state()
            })
            &&& final(cg).state().arc.frames() == fr
            &&& final(cg).state().arc.floors() == old(cg).state().arc.floors().push((fr.len() as usize, g.mark))
            &&& crate::builder::located(old(cg).debug(), final(cg).debug())
            &&& final(cg).coverage() == old(cg).coverage()
        }),
{
    let mark = crate::arc::frame_mark(cg);
    let bad_block = cg.fresh_label();
    let good_block = cg.fresh_label();
    let end = cg.fresh_label();
    let mut br = owned("br i1 ");
    br.append(bad);
    br.append(", label %");
    br.append(bad_block.as_str());
    br.append(", label %");
    br.append(good_block.as_str());
    cg.emit(br.as_str());
    cg.start_block(good_block.as_str());
    crate::arc::open_conditional(cg, mark);
    ResultGuard { bad: bad_block, end, mark }
}

} // verus!
