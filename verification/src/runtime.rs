//! Emission of the C-runtime and libc calls behind the built-ins that render
//! values as text: `toString` per machine type and the exactly-sized
//! formatting of a `%s` template. Float formatting is delegated to the
//! runtime's `osp_float_to_string`, which keeps the `.0` of a whole-valued
//! float.

use crate::anybox::{any_to_string, owned_called, to_string_ready, TO_STRING_FN};
use crate::arc::{lemma_owns_grows, own, own_value, owns};
use crate::builder::{
    alloc_rhs, const_gep, const_global, emitted, emitted_with, grows, label, lemma_ascii_fits, lemma_emitted_grows,
    lemma_emitted_trans, lemma_emitted_with_grows, lemma_emitted_with_plain, lemma_emitted_with_trans,
    lemma_grows_fits, lemma_grows_trans, lemma_grows_weaken, lemma_wf_debug, register, same_externs, unchanged,
    Codegen, Emission, OSP_ALLOC_DECL,
};
use crate::conv::{as_i64, i64_bodies, i64_operand, i64_regs, in_register, integer_ok, invalid_with};
use crate::error::CodegenError;
use crate::result::{load_errmsg, load_value, open_result_branch};
use crate::llty::{LType, Value};
use crate::meta::KIND_RAW;
use crate::text::owned;
use vstd::prelude::*;
use vstd::string::StringExecFns;
use vstd::utf8::encode_utf8;

verus! {

/// The libc `sprintf` declaration integer formatting calls.
pub const SPRINTF_DECL: &'static str = "declare i32 @sprintf(i8*, i8*, ...)";

/// libc `puts`, which `print` writes through.
pub const PUTS_DECL: &'static str = "declare i32 @puts(i8*)";

/// The runtime's float formatter.
pub const FLOAT_TO_STRING_DECL: &'static str = "declare i8* @osp_float_to_string(double)";

/// The runtime's measuring pass of an exactly-sized format.
pub const FORMAT_SIZE_DECL: &'static str = "declare i64 @osp_format_size(i8*, ...)";

/// The runtime's filling pass of an exactly-sized format.
pub const FORMAT_INTO_DECL: &'static str = "declare void @osp_format_into(i8*, i64, i8*, ...)";

/// The widest `%lld` an `i64` prints, its terminator included: a property of
/// the type, so a fixed block is sound here.
pub const INT_STRING_BYTES: &'static str = "21";

/// `r` is the string `true` or `false` selected by the `i1` operand `b`,
/// the first register free being `n` and the first constant `k`.
pub open spec fn bool_string_bodies(b: Seq<char>, n: nat, k: nat) -> Seq<Seq<char>> {
    seq![
        const_gep(register(n), k, "true"@),
        const_gep(register(n + 1), k + 1, "false"@),
        register(n + 2) + " = "@ + "select i1 "@ + b + ", i8* "@ + register(n) + ", i8* "@ + register(n + 1),
    ]
}

/// `after` is `before` with the `i1` operand `b` rendered as the string `r`,
/// `true` or `false`.
pub open spec fn bool_rendered(before: Codegen, after: Codegen, b: Seq<char>, r: Value) -> bool {
    let n = before.state().regs as nat;
    let k = before.state().globs as nat;
    &&& in_register(r, n + 2, LType::Str)
    &&& same_externs(before, after)
    &&& emitted_with(
        before,
        after,
        bool_string_bodies(b, n, k),
        3,
        seq![const_global(k, "true"@), const_global(k + 1, "false"@)],
        set![register(n), register(n + 1)],
    )
}

/// Render an `i1` as `true` / `false` (two private constants and a
/// `select`).
pub fn bool_to_string(cg: &mut Codegen, v: &Value) -> (r: Value)
    requires
        old(cg).wf(),
        old(cg).state().regs + 3 <= usize::MAX,
        old(cg).state().globs + 2 <= usize::MAX,
        old(cg).debug_fits(3),
    ensures
        bool_rendered(*old(cg), *final(cg), v.operand@, r),
{
    let ghost c0 = *cg;
    let ghost n = c0.state().regs as nat;
    let ghost k = c0.state().globs as nat;
    proof {
        reveal_strlit("true");
        reveal_strlit("false");
        lemma_ascii_fits("true"@);
        lemma_ascii_fits("false"@);
    }
    let t = cg.string_constant("true");
    let ghost c1 = *cg;
    let f = cg.string_constant("false");
    let ghost c2 = *cg;
    let mut rhs = owned("select i1 ");
    rhs.append(v.operand.as_str());
    rhs.append(", i8* ");
    rhs.append(t.operand.as_str());
    rhs.append(", i8* ");
    rhs.append(f.operand.as_str());
    let reg = cg.emit_reg(rhs.as_str());
    proof {
        let b = bool_string_bodies(v.operand@, n, k);
        lemma_emitted_with_trans(
            c0,
            c1,
            c2,
            seq![b[0]],
            1,
            seq![const_global(k, "true"@)],
            set![register(n)],
            seq![b[1]],
            1,
            seq![const_global(k + 1, "false"@)],
            set![register(n + 1)],
        );
        assert(seq![reg@ + " = "@ + rhs@] =~~= seq![b[2]]);
        lemma_emitted_with_plain(c2, *cg, seq![b[2]], 1);
        lemma_emitted_with_trans(
            c0,
            c2,
            *cg,
            seq![b[0]] + seq![b[1]],
            2,
            seq![const_global(k, "true"@)] + seq![const_global(k + 1, "false"@)],
            set![register(n)] + set![register(n + 1)],
            seq![b[2]],
            1,
            Seq::empty(),
            Set::empty(),
        );
        assert(seq![b[0]] + seq![b[1]] + seq![b[2]] =~= b);
        assert(seq![const_global(k, "true"@)] + seq![const_global(k + 1, "false"@)] + Seq::<Seq<char>>::empty()
            =~= seq![const_global(k, "true"@), const_global(k + 1, "false"@)]);
        assert(set![register(n)] + set![register(n + 1)] + Set::<Seq<char>>::empty() =~= set![
            register(n),
            register(n + 1),
        ]);
    }
    Value::new(reg.as_str(), LType::Str)
}

/// `after` is `before` with the double operand `d` rendered by the runtime's
/// formatter as the string `r`, owned by the current region.
pub open spec fn float_rendered(before: Codegen, after: Codegen, d: Seq<char>, r: Value) -> bool {
    let n = before.state().regs as nat;
    &&& in_register(r, n, LType::Str)
    &&& exists|mid: Codegen|
        {
            &&& emitted(
                before,
                mid,
                seq![register(n) + " = "@ + "call i8* @osp_float_to_string(double "@ + d + ")"@],
                1,
            )
            &&& mid.state().externs.to_set() == before.state().externs.to_set().insert(FLOAT_TO_STRING_DECL@)
            &&& #[trigger] owns(mid, after, r)
        }
}

/// Render a double through the runtime's formatter; the fresh string is
/// owned by the current region.
pub fn float_to_string(cg: &mut Codegen, v: &Value) -> (r: Value)
    requires
        old(cg).wf(),
        old(cg).state().regs + 2 <= usize::MAX,
        old(cg).state().slots < usize::MAX,
        old(cg).debug_fits(3),
    ensures
        float_rendered(*old(cg), *final(cg), v.operand@, r),
{
    cg.add_extern(FLOAT_TO_STRING_DECL);
    let mut rhs = owned("call i8* @osp_float_to_string(double ");
    rhs.append(v.operand.as_str());
    rhs.append(")");
    let reg = cg.emit_reg(rhs.as_str());
    let ghost mid = *cg;
    let out = Value::new(reg.as_str(), LType::Str);
    own(cg, &out);
    assert(emitted(*old(cg), mid, seq![reg@ + " = "@ + rhs@], 1));
    assert(seq![reg@ + " = "@ + rhs@] =~~= seq![
        register(old(cg).state().regs as nat) + " = "@ + "call i8* @osp_float_to_string(double "@ + v.operand@
            + ")"@,
    ]);
    out
}

/// The instructions that render the `i64` operand `i` into a fresh
/// `%lld` buffer, the first register free being `n` and the first constant
/// `k`.
pub open spec fn int_string_bodies(i: Seq<char>, n: nat, k: nat) -> Seq<Seq<char>> {
    seq![
        const_gep(register(n), k, "%lld"@),
        register(n + 1) + " = "@ + alloc_rhs(INT_STRING_BYTES@, KIND_RAW),
        register(n + 2) + " = "@ + "call i32 (i8*, i8*, ...) @sprintf(i8* "@ + register(n + 1) + ", i8* "@ + register(n)
            + ", i64 "@ + i + ")"@,
    ]
}

/// `after` is `before` with the integer `v` (coerced to `i64` first)
/// rendered with `sprintf("%lld")` into a fresh 21-byte block `r`, owned by
/// the current region.
pub open spec fn int_rendered(before: Codegen, after: Codegen, v: Value, r: Value) -> bool {
    let n = before.state().regs as nat;
    let k = before.state().globs as nat;
    let w = i64_regs(v);
    &&& in_register(r, n + w + 1, LType::Str)
    &&& exists|mid: Codegen|
        {
            &&& emitted_with(
                before,
                mid,
                i64_bodies(v, n) + int_string_bodies(i64_operand(v, n), n + w, k),
                w + 3,
                seq![const_global(k, "%lld"@)],
                set![register(n + w)],
            )
            &&& mid.state().externs.to_set() == before.state().externs.to_set().insert(SPRINTF_DECL@).insert(
                OSP_ALLOC_DECL@,
            )
            &&& #[trigger] owns(mid, after, r)
        }
}

/// Render an integer (coerced to `i64` first) with `sprintf("%lld")` into a
/// fixed 21-byte block owned by the current region; a string or handle is
/// refused.
#[verifier::rlimit(80)]
pub fn int_to_string(cg: &mut Codegen, v: Value) -> (r: Result<Value, CodegenError>)
    requires
        old(cg).wf(),
        old(cg).state().regs + 5 <= usize::MAX,
        old(cg).state().globs < usize::MAX,
        old(cg).state().slots < usize::MAX,
        old(cg).debug_fits(6),
    ensures
        final(cg).wf(),
        integer_ok(v.ty) ==> r is Ok && int_rendered(*old(cg), *final(cg), v, r->Ok_0),
        !integer_ok(v.ty) ==> invalid_with(r, "expected an integer, found a string/handle"@),
{
    cg.add_extern(SPRINTF_DECL);
    let ghost c0 = *cg;
    let ghost n = c0.state().regs as nat;
    let ghost k = c0.state().globs as nat;
    let i = match as_i64(cg, v) {
        Ok(i) => i,
        Err(e) => {
            return Err(e);
        },
    };
    proof {
        reveal_strlit("%lld");
        lemma_ascii_fits("%lld"@);
    }
    let ghost c1 = *cg;
    let ghost w = i64_regs(v);
    let fmt = cg.string_constant("%lld");
    let ghost c2 = *cg;
    let buf = cg.heap_alloc(INT_STRING_BYTES);
    let ghost c3 = *cg;
    let mut rhs = owned("call i32 (i8*, i8*, ...) @sprintf(i8* ");
    rhs.append(buf.as_str());
    rhs.append(", i8* ");
    rhs.append(fmt.operand.as_str());
    rhs.append(", i64 ");
    rhs.append(i.operand.as_str());
    rhs.append(")");
    let tmp = cg.emit_reg(rhs.as_str());
    let ghost mid = *cg;
    let out = own_value(cg, Value::new(buf.as_str(), LType::Str));
    proof {
        assert(emitted_with(
            *old(cg),
            mid,
            i64_bodies(v, n) + int_string_bodies(i64_operand(v, n), n + w, k),
            w + 3,
            seq![const_global(k, "%lld"@)],
            set![register(n + w)],
        )) by {
            let b = int_string_bodies(i64_operand(v, n), n + w, k);
            lemma_emitted_with_plain(c0, c1, i64_bodies(v, n), w);
            lemma_emitted_with_trans(
                c0,
                c1,
                c2,
                i64_bodies(v, n),
                w,
                Seq::empty(),
                Set::empty(),
                seq![b[0]],
                1,
                seq![const_global(k, "%lld"@)],
                set![register(n + w)],
            );
            assert(seq![buf@ + " = "@ + alloc_rhs(INT_STRING_BYTES@, KIND_RAW)] == seq![b[1]]);
            assert(seq![tmp@ + " = "@ + rhs@] =~~= seq![b[2]]);
            lemma_emitted_trans(c2, c3, mid, seq![b[1]], 1, seq![b[2]], 1);
            lemma_emitted_with_plain(c2, mid, seq![b[1]] + seq![b[2]], 2);
            lemma_emitted_with_trans(
                c0,
                c2,
                mid,
                i64_bodies(v, n) + seq![b[0]],
                w + 1,
                Seq::<Seq<char>>::empty() + seq![const_global(k, "%lld"@)],
                Set::<Seq<char>>::empty() + set![register(n + w)],
                seq![b[1]] + seq![b[2]],
                2,
                Seq::empty(),
                Set::empty(),
            );
            assert(i64_bodies(v, n) + seq![b[0]] + (seq![b[1]] + seq![b[2]]) =~= i64_bodies(v, n) + b);
            assert(Seq::<Seq<char>>::empty() + seq![const_global(k, "%lld"@)] + Seq::<Seq<char>>::empty()
                =~= seq![const_global(k, "%lld"@)]);
            assert(Set::<Seq<char>>::empty() + set![register(n + w)] + Set::<Seq<char>>::empty() =~= set![
                register(n + w),
            ]);
        }
        assert(mid.state().externs.to_set() =~= old(cg).state().externs.to_set().insert(SPRINTF_DECL@).insert(
            OSP_ALLOC_DECL@,
        ));
    }
    proof {
        let n1 = old(cg).state().regs as nat;
        let k1 = old(cg).state().globs as nat;
        let w1 = i64_regs(v);
        assert(in_register(out, n1 + w1 + 1, LType::Str));
        assert(exists|m: Codegen|
            {
                &&& emitted_with(
                    *old(cg),
                    m,
                    i64_bodies(v, n1) + int_string_bodies(i64_operand(v, n1), n1 + w1, k1),
                    w1 + 3,
                    seq![const_global(k1, "%lld"@)],
                    set![register(n1 + w1)],
                )
                &&& m.state().externs.to_set() == old(cg).state().externs.to_set().insert(SPRINTF_DECL@).insert(
                    OSP_ALLOC_DECL@,
                )
                &&& #[trigger] owns(m, *cg, out)
            });
    }
    Ok(out)
}

/// The operands of a format call, each preceded by `, `.
pub open spec fn comma_args(args: Seq<Seq<char>>) -> Seq<char>
    decreases args.len(),
{
    if args.len() == 0 {
        Seq::empty()
    } else {
        comma_args(args.drop_last()) + ", "@ + args.last()
    }
}

/// The instructions that format the template `fmt` (the `k`-th constant)
/// with the operands `extra` into an exactly-sized buffer, the first
/// register free being `n`: measure, add the terminator, allocate, fill.
pub open spec fn format_bodies(fmt: Seq<char>, extra: Seq<char>, n: nat, k: nat) -> Seq<Seq<char>> {
    seq![
        const_gep(register(n), k, fmt),
        register(n + 1) + " = "@ + "call i64 (i8*, ...) @osp_format_size(i8* "@ + register(n) + extra + ")"@,
        register(n + 2) + " = "@ + "add i64 "@ + register(n + 1) + ", 1"@,
        register(n + 3) + " = "@ + alloc_rhs(register(n + 2), KIND_RAW),
        "call void (i8*, i64, i8*, ...) @osp_format_into(i8* "@ + register(n + 3) + ", i64 "@ + register(n + 2)
            + ", i8* "@ + register(n) + extra + ")"@,
    ]
}

/// `after` is `before` with the template `fmt` formatted with the operands
/// `extra` into the fresh buffer `buf`, owned by the current region.
pub open spec fn formatted(before: Codegen, after: Codegen, fmt: Seq<char>, extra: Seq<char>, buf: Value) -> bool {
    let n = before.state().regs as nat;
    let k = before.state().globs as nat;
    &&& in_register(buf, n + 3, LType::Str)
    &&& exists|mid: Codegen|
        {
            &&& emitted_with(before, mid, format_bodies(fmt, extra, n, k), 4, seq![const_global(k, fmt)], set![register(n)])
            &&& mid.state().externs.to_set() == before.state().externs.to_set().insert(FORMAT_SIZE_DECL@).insert(
                FORMAT_INTO_DECL@,
            ).insert(OSP_ALLOC_DECL@)
            &&& #[trigger] owns(mid, after, buf)
        }
}

/// Format `fmt`, a template whose holes are all `%s`, with the complete
/// operands `args` (`i8* %r7`) into an exactly-sized buffer owned by the
/// current region: measured with `osp_format_size`, then filled with
/// `osp_format_into`, so no `size_t` appears in the emitted text.
pub fn format_sized(cg: &mut Codegen, fmt: &str, args: &[String]) -> (r: Value)
    requires
        old(cg).wf(),
        old(cg).state().regs + 5 <= usize::MAX,
        old(cg).state().globs < usize::MAX,
        old(cg).state().slots < usize::MAX,
        old(cg).debug_fits(7),
        encode_utf8(fmt@).len() < usize::MAX,
    ensures
        formatted(*old(cg), *final(cg), fmt@, comma_args(crate::llty::texts(args@)), r),
{
    cg.add_extern(FORMAT_SIZE_DECL);
    cg.add_extern(FORMAT_INTO_DECL);
    let ghost c0 = *cg;
    let ghost n = c0.state().regs as nat;
    let ghost k = c0.state().globs as nat;
    let fmtv = cg.string_constant(fmt);
    let ghost c1 = *cg;
    let mut extra = owned("");
    let mut i: usize = 0;
    proof {
        reveal_strlit("");
        assert(crate::llty::texts(args@).take(0) =~= Seq::<Seq<char>>::empty());
    }
    while i < args.len()
        invariant
            i <= args@.len(),
            extra@ == comma_args(crate::llty::texts(args@).take(i as int)),
        decreases args@.len() - i,
    {
        extra.append(", ");
        extra.append(args[i].as_str());
        proof {
            let t = crate::llty::texts(args@);
            assert(t.take(i + 1).drop_last() =~= t.take(i as int));
        }
        i = i + 1;
    }
    proof {
        assert(crate::llty::texts(args@).take(i as int) =~= crate::llty::texts(args@));
    }
    let ghost ex = extra@;
    let mut size_rhs = owned("call i64 (i8*, ...) @osp_format_size(i8* ");
    size_rhs.append(fmtv.operand.as_str());
    size_rhs.append(extra.as_str());
    size_rhs.append(")");
    let len = cg.emit_reg(size_rhs.as_str());
    let ghost c2 = *cg;
    let mut add = owned("add i64 ");
    add.append(len.as_str());
    add.append(", 1");
    let size = cg.emit_reg(add.as_str());
    let ghost c3 = *cg;
    let buf = cg.heap_alloc(size.as_str());
    let ghost c4 = *cg;
    let mut fill = owned("call void (i8*, i64, i8*, ...) @osp_format_into(i8* ");
    fill.append(buf.as_str());
    fill.append(", i64 ");
    fill.append(size.as_str());
    fill.append(", i8* ");
    fill.append(fmtv.operand.as_str());
    fill.append(extra.as_str());
    fill.append(")");
    cg.emit(fill.as_str());
    let ghost mid = *cg;
    let out = own_value(cg, Value::new(buf.as_str(), LType::Str));
    proof {
        let b = format_bodies(fmt@, ex, n, k);
        assert(emitted_with(c0, mid, b, 4, seq![const_global(k, fmt@)], set![register(n)])) by {
            assert(seq![len@ + " = "@ + size_rhs@] =~~= seq![b[1]]);
            assert(seq![size@ + " = "@ + add@] =~~= seq![b[2]]);
            assert(seq![fill@] =~~= seq![b[4]]);
            lemma_emitted_trans(c1, c2, c3, seq![b[1]], 1, seq![b[2]], 1);
            lemma_emitted_trans(c1, c3, c4, seq![b[1]] + seq![b[2]], 2, seq![b[3]], 1);
            lemma_emitted_trans(c1, c4, mid, seq![b[1]] + seq![b[2]] + seq![b[3]], 3, seq![b[4]], 0);
            lemma_emitted_with_plain(c1, mid, seq![b[1]] + seq![b[2]] + seq![b[3]] + seq![b[4]], 3);
            lemma_emitted_with_trans(
                c0,
                c1,
                mid,
                seq![b[0]],
                1,
                seq![const_global(k, fmt@)],
                set![register(n)],
                seq![b[1]] + seq![b[2]] + seq![b[3]] + seq![b[4]],
                3,
                Seq::empty(),
                Set::empty(),
            );
            assert(seq![b[0]] + (seq![b[1]] + seq![b[2]] + seq![b[3]] + seq![b[4]]) =~= b);
            assert(seq![const_global(k, fmt@)] + Seq::<Seq<char>>::empty() =~= seq![const_global(k, fmt@)]);
            assert(set![register(n)] + Set::<Seq<char>>::empty() =~= set![register(n)]);
        }
        assert(mid.state().externs.to_set() =~= old(cg).state().externs.to_set().insert(FORMAT_SIZE_DECL@).insert(
            FORMAT_INTO_DECL@,
        ).insert(OSP_ALLOC_DECL@));
        let n1 = old(cg).state().regs as nat;
        let k1 = old(cg).state().globs as nat;
        assert(n1 == n && k1 == k);
        assert(exists|m: Codegen|
            {
                &&& emitted_with(
                    *old(cg),
                    m,
                    format_bodies(fmt@, ex, n1, k1),
                    4,
                    seq![const_global(k1, fmt@)],
                    set![register(n1)],
                )
                &&& m.state().externs.to_set() == old(cg).state().externs.to_set().insert(FORMAT_SIZE_DECL@).insert(
                    FORMAT_INTO_DECL@,
                ).insert(OSP_ALLOC_DECL@)
                &&& #[trigger] owns(m, *cg, out)
            });
    }
    out
}

/// Wrap one string in a single-`%s` template (`Success(%s)`, `Error(%s)`)
/// into a buffer sized for the string actually there, answering the
/// buffer's operand.
pub fn sprintf_wrap(cg: &mut Codegen, fmt: &str, arg: &str) -> (r: String)
    requires
        old(cg).wf(),
        old(cg).state().regs + 5 <= usize::MAX,
        old(cg).state().globs < usize::MAX,
        old(cg).state().slots < usize::MAX,
        old(cg).debug_fits(7),
        encode_utf8(fmt@).len() < usize::MAX,
    ensures
        exists|v: Value| v.operand@ == r@ && #[trigger] formatted(*old(cg), *final(cg), fmt@, ", i8* "@ + arg@, v),
{
    let mut a = owned("i8* ");
    a.append(arg);
    let args = vec![a];
    let v = format_sized(cg, fmt, args.as_slice());
    proof {
        assert(crate::llty::texts(args@) =~= seq!["i8* "@ + arg@]);
        assert(comma_args(seq!["i8* "@ + arg@]) =~= ", "@ + ("i8* "@ + arg@)) by {
            assert(seq!["i8* "@ + arg@].drop_last() =~= Seq::<Seq<char>>::empty());
            assert(comma_args(Seq::<Seq<char>>::empty()) =~= Seq::<char>::empty());
            assert(Seq::<char>::empty() + ", "@ + ("i8* "@ + arg@) =~= ", "@ + ("i8* "@ + arg@));
        }
        assert(", "@ + ("i8* "@ + arg@) =~= ", i8* "@ + arg@) by {
            reveal_strlit(", ");
            reveal_strlit("i8* ");
            reveal_strlit(", i8* ");
        }
    }
    v.operand
}

/// `after` is `before` with the erased value at `op` rendered through its
/// descriptor as the string `r`.
pub open spec fn any_rendered(before: Codegen, after: Codegen, op: Seq<char>, r: Value) -> bool {
    exists|mid: Codegen|
        to_string_ready(before, mid) && #[trigger] owned_called(mid, after, r, LType::Str, TO_STRING_FN@, op)
}

/// `after` is `before` with the plain value `v` rendered as the string `r`:
/// a string or handle is its own text; a bool, float, integer or erased
/// value goes through its renderer.
pub open spec fn plain_rendered(before: Codegen, after: Codegen, v: Value, r: Value) -> bool {
    match v.ty {
        LType::Str | LType::Ptr => r.operand@ == v.operand@ && r.ty == LType::Str && r.is_plain() && unchanged(
            before,
            after,
        ),
        LType::I1 => bool_rendered(before, after, v.operand@, r),
        LType::Double => float_rendered(before, after, v.operand@, r),
        LType::I64 | LType::I32 => int_rendered(before, after, v, r),
        LType::Any => any_rendered(before, after, v.operand@, r),
    }
}

/// `after` is `before` with the Result `v` rendered as the string `r`,
/// `Success(<payload>)` (or the bare payload when `wrap` is off) or
/// `Error(<message>)` / `Error`: `r` is the `phi` that opens the join block,
/// the third of the six labels the rendering draws, joining the success path
/// and the error join (the sixth).
pub open spec fn result_rendered(before: Codegen, after: Codegen, v: Value, wrap: bool, r: Value) -> bool {
    let l = before.state().labels as nat;
    let lines = after.state().lines;
    &&& grows(before, after, 64)
    &&& after.state().regs > 0
    &&& in_register(r, (after.state().regs - 1) as nat, LType::Str)
    &&& after.state().block == label(l + 2)
    &&& after.state().labels == l + 6
    &&& lines.len() >= 2
    &&& lines[lines.len() - 2] == label(l + 2) + ":"@
    &&& exists|s: Seq<char>, sb: Seq<char>, e: Seq<char>, loc: Option<usize>|
        lines.last() == #[trigger] crate::builder::instruction(
            r.operand@ + " = phi i8* [ "@ + s + ", %"@ + sb + " ], [ "@ + e + ", %"@ + label(l + 5) + " ]"@,
            loc,
        )
}

/// `after` is `before` with `v` rendered as the string `r`.
pub open spec fn rendered(before: Codegen, after: Codegen, v: Value, r: Value) -> bool {
    if v.result_inner is Some {
        result_rendered(before, after, v, true, r)
    } else {
        plain_rendered(before, after, v, r)
    }
}

/// Rendering a plain value draws at most eight registers, constants, slots
/// and debug nodes.
pub proof fn lemma_plain_rendered_grows(before: Codegen, after: Codegen, v: Value, r: Value)
    requires
        before.wf(),
        before.state().lines.len() >= 1,
        before.state().regs + 8 <= usize::MAX,
        before.state().globs + 8 <= usize::MAX,
        before.state().slots + 8 <= usize::MAX,
        plain_rendered(before, after, v, r),
    ensures
        grows(before, after, 8),
{
    lemma_wf_debug(before);
    match v.ty {
        LType::Str | LType::Ptr => {},
        LType::I1 => {
            let n = before.state().regs as nat;
            let k = before.state().globs as nat;
            lemma_emitted_with_grows(
                before,
                after,
                bool_string_bodies(v.operand@, n, k),
                3,
                seq![const_global(k, "true"@), const_global(k + 1, "false"@)],
                set![register(n), register(n + 1)],
                8,
            );
        },
        LType::Double => {
            let n = before.state().regs as nat;
            let mid = choose|mid: Codegen|
                {
                    &&& emitted(
                        before,
                        mid,
                        seq![register(n) + " = "@ + "call i8* @osp_float_to_string(double "@ + v.operand@ + ")"@],
                        1,
                    )
                    &&& mid.state().externs.to_set() == before.state().externs.to_set().insert(FLOAT_TO_STRING_DECL@)
                    &&& #[trigger] owns(mid, after, r)
                };
            lemma_emitted_grows(
                before,
                mid,
                seq![register(n) + " = "@ + "call i8* @osp_float_to_string(double "@ + v.operand@ + ")"@],
                1,
                1,
            );
            lemma_owns_grows(mid, after, r);
            lemma_grows_trans(before, mid, after, 1, 2);
            lemma_grows_weaken(before, after, 3, 8);
        },
        LType::I64 | LType::I32 => {
            let n = before.state().regs as nat;
            let k = before.state().globs as nat;
            let w = i64_regs(v);
            let mid = choose|mid: Codegen|
                {
                    &&& emitted_with(
                        before,
                        mid,
                        i64_bodies(v, n) + int_string_bodies(i64_operand(v, n), n + w, k),
                        w + 3,
                        seq![const_global(k, "%lld"@)],
                        set![register(n + w)],
                    )
                    &&& mid.state().externs.to_set() == before.state().externs.to_set().insert(SPRINTF_DECL@).insert(
                        OSP_ALLOC_DECL@,
                    )
                    &&& #[trigger] owns(mid, after, r)
                };
            lemma_emitted_with_grows(
                before,
                mid,
                i64_bodies(v, n) + int_string_bodies(i64_operand(v, n), n + w, k),
                w + 3,
                seq![const_global(k, "%lld"@)],
                set![register(n + w)],
                4,
            );
            lemma_owns_grows(mid, after, r);
            lemma_grows_trans(before, mid, after, 4, 2);
            lemma_grows_weaken(before, after, 6, 8);
        },
        LType::Any => {
            let mid = choose|mid: Codegen|
                to_string_ready(before, mid) && #[trigger] owned_called(
                    mid,
                    after,
                    r,
                    LType::Str,
                    TO_STRING_FN@,
                    v.operand@,
                );
            assert(grows(before, mid, 1));
            let n = mid.state().regs as nat;
            let m2 = choose|m2: Codegen|
                {
                    &&& emitted(
                        mid,
                        m2,
                        seq![register(n) + " = "@ + "call i8* @"@ + TO_STRING_FN@ + "(i8* "@ + v.operand@ + ")"@],
                        1,
                    )
                    &&& same_externs(mid, m2)
                    &&& #[trigger] owns(m2, after, r)
                };
            lemma_emitted_grows(
                mid,
                m2,
                seq![register(n) + " = "@ + "call i8* @"@ + TO_STRING_FN@ + "(i8* "@ + v.operand@ + ")"@],
                1,
                1,
            );
            lemma_owns_grows(m2, after, r);
            lemma_grows_trans(mid, m2, after, 1, 2);
            lemma_grows_trans(before, mid, after, 1, 3);
            lemma_grows_weaken(before, after, 4, 8);
        },
    }
}

/// Formatting into a sized buffer draws at most seven registers, constants,
/// slots and debug nodes.
pub proof fn lemma_formatted_grows(before: Codegen, after: Codegen, fmt: Seq<char>, extra: Seq<char>, buf: Value)
    requires
        before.wf(),
        before.state().regs + 8 <= usize::MAX,
        before.state().globs + 8 <= usize::MAX,
        before.state().slots + 8 <= usize::MAX,
        formatted(before, after, fmt, extra, buf),
    ensures
        grows(before, after, 7),
{
    let n = before.state().regs as nat;
    let k = before.state().globs as nat;
    let mid = choose|mid: Codegen|
        {
            &&& emitted_with(before, mid, format_bodies(fmt, extra, n, k), 4, seq![const_global(k, fmt)], set![register(n)])
            &&& mid.state().externs.to_set() == before.state().externs.to_set().insert(FORMAT_SIZE_DECL@).insert(
                FORMAT_INTO_DECL@,
            ).insert(OSP_ALLOC_DECL@)
            &&& #[trigger] owns(mid, after, buf)
        };
    lemma_emitted_with_grows(before, mid, format_bodies(fmt, extra, n, k), 4, seq![const_global(k, fmt)], set![register(n)], 5);
    lemma_owns_grows(mid, after, buf);
    lemma_grows_trans(before, mid, after, 5, 2);
}

/// Room for rendering `v` in `c`: a Result draws more than a plain value.
pub open spec fn render_room(c: Codegen, v: Value) -> bool {
    &&& c.wf()
    &&& c.state().lines.len() >= 1
    &&& if v.result_inner is Some {
        &&& c.state().regs + 64 <= usize::MAX
        &&& c.state().labels + 6 <= usize::MAX
        &&& c.state().globs + 16 <= usize::MAX
        &&& c.state().slots + 16 <= usize::MAX
        &&& c.debug_fits(64)
    } else {
        &&& c.state().regs + 8 <= usize::MAX
        &&& c.state().globs + 8 <= usize::MAX
        &&& c.state().slots + 8 <= usize::MAX
        &&& c.debug_fits(16)
    }
}

/// Convert a value to its `i8*` string form (`toString`, interpolation,
/// `print`): a string or handle is its own text; a bool, float or integer
/// goes through its renderer; an erased value through its descriptor; a
/// Result renders as `Success(value)` / `Error(message)`.
pub fn to_string_value(cg: &mut Codegen, v: Value) -> (r: Result<Value, CodegenError>)
    requires
        render_room(*old(cg), v),
    ensures
        r is Ok,
        rendered(*old(cg), *final(cg), v, r->Ok_0),
    decreases (if v.result_inner is Some {
        3nat
    } else {
        0nat
    }),
{
    if v.result_inner.is_some() {
        return result_to_string(cg, &v);
    }
    match v.ty {
        LType::Str | LType::Ptr => Ok(Value::new(v.operand.as_str(), LType::Str)),
        LType::I1 => Ok(bool_to_string(cg, &v)),
        LType::Double => Ok(float_to_string(cg, &v)),
        LType::I64 | LType::I32 => int_to_string(cg, v),
        LType::Any => Ok(any_to_string(cg, &v)),
    }
}

/// Format a Result block as `Success(<value>)` or `Error(<message>)`.
fn result_to_string(cg: &mut Codegen, v: &Value) -> (r: Result<Value, CodegenError>)
    requires
        v.result_inner is Some,
        render_room(*old(cg), *v),
    ensures
        r is Ok,
        result_rendered(*old(cg), *final(cg), *v, true, r->Ok_0),
    decreases 2nat,
{
    result_string(cg, v, true)
}

/// A Result rendered for an assertion's operands: a Success as its bare
/// payload, an Error as `Error(<message>)`, never a blind payload load.
pub fn result_payload_or_error_string(cg: &mut Codegen, v: &Value) -> (r: Result<Value, CodegenError>)
    requires
        v.result_inner is Some,
        render_room(*old(cg), *v),
    ensures
        r is Ok,
        result_rendered(*old(cg), *final(cg), *v, false, r->Ok_0),
{
    result_string(cg, v, false)
}

/// The error path of a Result's rendering, opened at block `el`: its message
/// as `Error(<message>)`, or the bare `Error` when it has none, joined in a
/// `phi`, then a branch to `end`. Answers the `phi` and the block it is in.
#[verifier::rlimit(100)]
fn error_text(cg: &mut Codegen, v: &Value, el: &str, end: &str) -> (r: (String, String))
    requires
        old(cg).wf(),
        v.result_inner is Some,
        old(cg).state().lines.len() >= 1,
        old(cg).state().regs + 20 <= usize::MAX,
        old(cg).state().labels + 3 <= usize::MAX,
        old(cg).state().globs + 8 <= usize::MAX,
        old(cg).state().slots + 8 <= usize::MAX,
        old(cg).debug_fits(20),
    ensures
        grows(*old(cg), *final(cg), 20),
        final(cg).state().labels == old(cg).state().labels + 3,
        r.1@ == label(old(cg).state().labels as nat + 2),
        final(cg).state().block == r.1@,
        r.0@ == register((final(cg).state().regs - 1) as nat),
        final(cg).state().regs > 0,
{
    let ghost c6 = *cg;
    let ghost l3 = c6.state().labels as nat;
    proof {
        lemma_wf_debug(c6);
    }
    cg.start_block(el);
    let ghost c6b = *cg;
    let msg = load_errmsg(cg, v);
    let ghost c7 = *cg;
    proof {
        assert(grows(c6, c6b, 0));
        lemma_emitted_grows(c6b, c7, crate::result::errmsg_bodies(*v, c6b.state().regs as nat), 2, 2);
        lemma_grows_trans(c6, c6b, c7, 0, 2);
        lemma_grows_fits(c6, c7, 2, 2);
    }
    let mut test = owned("icmp eq i8* ");
    test.append(msg.operand.as_str());
    test.append(", null");
    let isnull = cg.emit_reg(test.as_str());
    let fl = cg.fresh_label();
    let nl = cg.fresh_label();
    let jl = cg.fresh_label();
    let mut br = owned("br i1 ");
    br.append(isnull.as_str());
    br.append(", label %");
    br.append(nl.as_str());
    br.append(", label %");
    br.append(fl.as_str());
    cg.emit(br.as_str());
    cg.start_block(fl.as_str());
    let ghost c11 = *cg;
    proof {
        assert(grows(c7, c11, 3));
        lemma_grows_trans(c6, c7, c11, 2, 3);
        lemma_grows_fits(c6, c11, 5, 7);
        reveal_strlit("Error(%s)");
        lemma_ascii_fits("Error(%s)"@);
    }
    let with = sprintf_wrap(cg, "Error(%s)", msg.operand.as_str());
    let ghost c12 = *cg;
    proof {
        let b = choose|b: Value| b.operand@ == with@ && #[trigger] formatted(c11, c12, "Error(%s)"@, ", i8* "@ + msg.operand@, b);
        lemma_formatted_grows(c11, c12, "Error(%s)"@, ", i8* "@ + msg.operand@, b);
        lemma_grows_trans(c6, c11, c12, 5, 7);
        lemma_grows_fits(c6, c12, 12, 4);
        reveal_strlit("Error");
        lemma_ascii_fits("Error"@);
    }
    let fb = owned(cg.cur_block());
    let mut to_join = owned("br label %");
    to_join.append(jl.as_str());
    cg.emit(to_join.as_str());
    cg.start_block(nl.as_str());
    let bare = cg.string_constant("Error");
    cg.emit(to_join.as_str());
    cg.start_block(jl.as_str());
    let err = cg.fresh_reg();
    let mut phi_err = err.clone();
    phi_err.append(" = phi i8* [ ");
    phi_err.append(with.as_str());
    phi_err.append(", %");
    phi_err.append(fb.as_str());
    phi_err.append(" ], [ ");
    phi_err.append(bare.operand.as_str());
    phi_err.append(", %");
    phi_err.append(nl.as_str());
    phi_err.append(" ]");
    cg.emit(phi_err.as_str());
    let ghost c18 = *cg;
    proof {
        assert(grows(c12, c18, 4));
        lemma_grows_trans(c6, c12, c18, 12, 4);
        lemma_grows_fits(c6, c18, 16, 1);
    }
    let eb = cg.snapshot_to(end);
    proof {
        assert(grows(c18, *cg, 1));
        lemma_grows_trans(c6, c18, *cg, 16, 1);
        lemma_grows_weaken(c6, *cg, 17, 20);
    }
    (err, eb)
}

/// Branch on the Result `v`'s discriminant: the success path renders the
/// payload (wrapped in `Success(..)` when `wrap_success`), the error path its
/// message as `Error(<message>)`, or the bare `Error` when there is none;
/// the two join in a `phi`.
#[verifier::rlimit(100)]
fn result_string(cg: &mut Codegen, v: &Value, wrap_success: bool) -> (r: Result<Value, CodegenError>)
    requires
        v.result_inner is Some,
        render_room(*old(cg), *v),
    ensures
        r is Ok,
        result_rendered(*old(cg), *final(cg), *v, wrap_success, r->Ok_0),
    decreases 1nat,
{
    let ghost c0 = *cg;
    let ghost l = c0.state().labels as nat;
    proof {
        lemma_wf_debug(c0);
    }
    let (_sl, el, end) = open_result_branch(cg, v);
    let ghost c1 = *cg;
    proof {
        crate::builder::lemma_located_grows(c0.debug(), c1.debug(), 4);
        assert(grows(c0, c1, 4));
    }
    let val = load_value(cg, v);
    let ghost c2 = *cg;
    proof {
        lemma_emitted_grows(c1, c2, crate::result::value_bodies(*v, c1.state().regs as nat), 2, 2);
        lemma_grows_trans(c0, c1, c2, 4, 2);
        lemma_grows_fits(c0, c2, 6, 16);
    }
    let vs = to_string_value(cg, val)?;
    let ghost c3 = *cg;
    proof {
        lemma_plain_rendered_grows(c2, c3, val, vs);
        lemma_grows_trans(c0, c2, c3, 6, 8);
        lemma_grows_fits(c0, c3, 14, 7);
    }
    let succ = if wrap_success {
        proof {
            reveal_strlit("Success(%s)");
            lemma_ascii_fits("Success(%s)"@);
        }
        let w = sprintf_wrap(cg, "Success(%s)", vs.operand.as_str());
        proof {
            let b = choose|b: Value| b.operand@ == w@ && #[trigger] formatted(c3, *cg, "Success(%s)"@, ", i8* "@ + vs.operand@, b);
            lemma_formatted_grows(c3, *cg, "Success(%s)"@, ", i8* "@ + vs.operand@, b);
        }
        w
    } else {
        proof {
            assert(grows(c3, *cg, 0));
        }
        vs.operand
    };
    let ghost c4 = *cg;
    proof {
        lemma_grows_weaken(c3, c4, if wrap_success { 7nat } else { 0nat }, 7);
        lemma_grows_trans(c0, c3, c4, 14, 7);
        lemma_grows_fits(c0, c4, 21, 2);
    }
    let sb = cg.snapshot_to(end.as_str());
    let ghost c5 = *cg;
    proof {
        assert(grows(c4, c5, 1));
        lemma_grows_trans(c0, c4, c5, 21, 1);
        lemma_grows_fits(c0, c5, 22, 20);
    }
    let (err, eb) = error_text(cg, v, el.as_str(), end.as_str());
    let ghost c19 = *cg;
    proof {
        lemma_grows_trans(c0, c5, c19, 22, 20);
        lemma_grows_fits(c0, c19, 42, 2);
    }
    cg.start_block(end.as_str());
    let phi = cg.fresh_reg();
    let mut phi_line = phi.clone();
    phi_line.append(" = phi i8* [ ");
    phi_line.append(succ.as_str());
    phi_line.append(", %");
    phi_line.append(sb.as_str());
    phi_line.append(" ], [ ");
    phi_line.append(err.as_str());
    phi_line.append(", %");
    phi_line.append(eb.as_str());
    phi_line.append(" ]");
    let ghost c21 = *cg;
    cg.emit(phi_line.as_str());
    let out = Value::new(phi.as_str(), LType::Str);
    proof {
        assert(grows(c19, *cg, 1));
        lemma_grows_trans(c0, c19, *cg, 42, 1);
        lemma_grows_weaken(c0, *cg, 43, 64);
        assert(eb@ == label(l + 5));
        let loc = crate::builder::location_of(c21.debug());
        assert(phi_line@ =~= phi@ + " = phi i8* [ "@ + succ@ + ", %"@ + sb@ + " ], [ "@ + err@ + ", %"@ + label(l + 5)
            + " ]"@);
        assert(cg.state().lines.last() == crate::builder::instruction(
            out.operand@ + " = phi i8* [ "@ + succ@ + ", %"@ + sb@ + " ], [ "@ + err@ + ", %"@ + label(l + 5) + " ]"@,
            loc,
        ));
    }
    Ok(out)
}

/// `print(x)`: `puts(toString(x))`, yielding Unit.
pub fn gen_print(cg: &mut Codegen, v: Value) -> (r: Result<Value, CodegenError>)
    requires
        render_room(*old(cg), v),
        v.result_inner is Some ==> old(cg).state().regs + 65 <= usize::MAX && old(cg).debug_fits(65),
        v.result_inner is None ==> old(cg).state().regs + 9 <= usize::MAX && old(cg).debug_fits(17),
    ensures
        r is Ok,
        r->Ok_0.operand@ == "0"@ && r->Ok_0.ty == LType::I64 && r->Ok_0.is_plain(),
        exists|mid: Codegen, s: Value|
            {
                &&& #[trigger] rendered(*old(cg), mid, v, s)
                &&& emitted(
                    mid,
                    *final(cg),
                    seq![register(mid.state().regs as nat) + " = call i32 @puts(i8* "@ + s.operand@ + ")"@],
                    1,
                )
                &&& final(cg).state().externs.to_set() == mid.state().externs.to_set().insert(PUTS_DECL@)
            },
{
    let ghost c0 = *cg;
    let s = to_string_value(cg, v)?;
    let ghost mid = *cg;
    proof {
        lemma_wf_debug(c0);
        if v.result_inner is Some {
            lemma_grows_fits(c0, mid, 64, 1);
        } else {
            lemma_plain_rendered_grows(c0, mid, v, s);
            lemma_grows_fits(c0, mid, 8, 1);
        }
    }
    cg.add_extern(PUTS_DECL);
    let reg = cg.fresh_reg();
    let mut line = reg.clone();
    line.append(" = call i32 @puts(i8* ");
    line.append(s.operand.as_str());
    line.append(")");
    cg.emit(line.as_str());
    proof {
        assert(line@ =~= register(mid.state().regs as nat) + " = call i32 @puts(i8* "@ + s.operand@ + ")"@);
        assert(rendered(c0, mid, v, s));
    }
    Ok(Value::unit())
}

/// Rendering a value with room for it draws at most 64 registers, labels,
/// constants, slots and debug nodes.
pub proof fn lemma_rendered_grows(before: Codegen, after: Codegen, v: Value, r: Value)
    requires
        render_room(before, v),
        rendered(before, after, v, r),
    ensures
        grows(before, after, 64),
{
    if v.result_inner is None {
        lemma_plain_rendered_grows(before, after, v, r);
        lemma_grows_weaken(before, after, 8, 64);
    }
}

} // verus!
