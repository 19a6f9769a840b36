//! The erased-`any` value representation. An erased value is a pointer to a
//! two-word box `{ i8* desc, i64 payload }` whose `desc` names a module-global
//! shape descriptor `{ i64 kind, i8* render }`, so ownership keys off the shape
//! instead of the machine word, rendering switches on what the value IS, and
//! a structural match narrows by comparing descriptor identity.
//!
//! A row erasure DEEP-boxes: the payload is a fresh block holding one child
//! box per field, so every row with the same field names shares one
//! descriptor no matter how its source was laid out.

use crate::arc::{own_value, owns};
use crate::builder::{
    const_gep, const_global, define_text, emitted, label, lemma_emitted_trans, lemma_wf_debug, located_lines,
    location_of, register, same_externs, unchanged, Codegen, Emission,
};
use crate::collections::{list_owner_spec, map_owner_spec};
use crate::conv::in_register;
use crate::debug_info::lemma_retained_pending;
use crate::effects::plain;
use crate::llty::Value;
use crate::gpu::buffer_owner_spec;
use crate::llty::{join, joined, texts, LType};
use vstd::utf8::encode_utf8;
use crate::meta::MetaField;
use crate::text::{has_prefix, owned, replace_char, replaced, starts_with, str_eq, strip_end_in, strip_start_in, trim_matches};
use vstd::prelude::*;
use vstd::string::StringExecFns;

verus! {

/// LLVM spelling of the box.
pub const BOX_TY: &'static str = "{ i8*, i64 }";

/// LLVM spelling of a descriptor global.
pub const DESC_TY: &'static str = "{ i64, i8* }";

/// Descriptor kind of an erased `int`.
pub const KIND_INT: i64 = 0;

/// Descriptor kind of an erased `bool`.
pub const KIND_BOOL: i64 = 1;

/// Descriptor kind of an erased `float`.
pub const KIND_FLOAT: i64 = 2;

/// Descriptor kind of an erased `string`.
pub const KIND_STRING: i64 = 3;

/// Descriptor kind of an erased row — the only kind structural narrowing
/// matches.
pub const ROW: i64 = 4;

/// Descriptor kind of an erased union value.
pub const KIND_UNION: i64 = 5;

/// Descriptor kind of an erased `Result` block.
pub const KIND_RESULT: i64 = 6;

/// Descriptor kind of a shape rendering cannot see into.
pub const KIND_OPAQUE: i64 = 7;

/// The identity of a descriptor. One global per key; two erasure sites with
/// the same key share it.
#[derive(Debug, Clone, PartialEq, Eq)]
pub enum DescKey {
    Int,
    Bool,
    Float,
    Str,
    /// Field names in layout order — the only identity a row has once erased.
    Row(Vec<String>),
    /// A union value; the variant is decided at run time by the block's tag.
    Union(String),
    /// A `Result<T, _>` block with this success-slot layout.
    ResultOf(LType),
    /// A shape rendering cannot see into (lists, maps, closures, foreign
    /// handles), with the placeholder it renders as.
    Opaque(String),
}

/// The kind word of a descriptor.
pub open spec fn kind_of(key: DescKey) -> i64 {
    match key {
        DescKey::Int => KIND_INT,
        DescKey::Bool => KIND_BOOL,
        DescKey::Float => KIND_FLOAT,
        DescKey::Str => KIND_STRING,
        DescKey::Row(_) => ROW,
        DescKey::Union(_) => KIND_UNION,
        DescKey::ResultOf(_) => KIND_RESULT,
        DescKey::Opaque(_) => KIND_OPAQUE,
    }
}

/// The kind word stored in a descriptor's first slot.
pub fn key_kind(key: &DescKey) -> (r: i64)
    ensures
        r == kind_of(*key),
{
    match key {
        DescKey::Int => KIND_INT,
        DescKey::Bool => KIND_BOOL,
        DescKey::Float => KIND_FLOAT,
        DescKey::Str => KIND_STRING,
        DescKey::Row(_) => ROW,
        DescKey::Union(_) => KIND_UNION,
        DescKey::ResultOf(_) => KIND_RESULT,
        DescKey::Opaque(_) => KIND_OPAQUE,
    }
}

/// The angle brackets a placeholder label is wrapped in.
pub open spec fn angles() -> Seq<char> {
    seq!['<', '>']
}

/// The slug naming a descriptor's globals.
pub open spec fn slug_of(key: DescKey) -> Seq<char> {
    match key {
        DescKey::Int => "int"@,
        DescKey::Bool => "bool"@,
        DescKey::Float => "float"@,
        DescKey::Str => "string"@,
        DescKey::Row(names) => "row."@ + joined(texts(names@), "."@),
        DescKey::Union(owner) => "union."@ + owner@,
        DescKey::ResultOf(inner) => "result."@ + replaced(inner.spelling(), '*', 'p'),
        DescKey::Opaque(label) => "opaque."@ + strip_end_in(
            strip_start_in(label@, angles()),
            angles(),
        ),
    }
}

/// A deterministic, LLVM-identifier-safe slug for a key: names joined with
/// `.`, a pointer star spelled `p`, a placeholder's angle brackets dropped.
pub fn key_slug(key: &DescKey) -> (r: String)
    ensures
        r@ == slug_of(*key),
{
    match key {
        DescKey::Int => owned("int"),
        DescKey::Bool => owned("bool"),
        DescKey::Float => owned("float"),
        DescKey::Str => owned("string"),
        DescKey::Row(names) => {
            let mut r = owned("row.");
            let j = join(names.as_slice(), ".");
            r.append(j.as_str());
            r
        },
        DescKey::Union(owner) => {
            let mut r = owned("union.");
            r.append(owner.as_str());
            r
        },
        DescKey::ResultOf(inner) => {
            let mut r = owned("result.");
            let s = replace_char(inner.as_str(), '*', 'p');
            r.append(s.as_str());
            r
        },
        DescKey::Opaque(label) => {
            let mut r = owned("opaque.");
            let set = ['<', '>'];
            assert(set@ =~= angles());
            let s = trim_matches(label.as_str(), &set);
            r.append(s.as_str());
            r
        },
    }
}

/// The LLVM constant expression for a descriptor global as an `i8*`.
pub fn desc_operand(name: &str) -> (r: String)
    ensures
        r@ == "bitcast ({ i64, i8* }* @"@ + name@ + " to i8*)"@,
{
    let mut r = owned("bitcast ({ i64, i8* }* @");
    r.append(name);
    r.append(" to i8*)");
    r
}

/// `n` copies of the `i8*` spelling.
pub open spec fn box_slots(n: nat) -> Seq<Seq<char>> {
    Seq::new(n, |i: int| "i8*"@)
}

/// The LLVM struct spelling of a deep-boxed row payload: one `i8*` child box
/// per field.
pub fn row_block_ty(fields: usize) -> (r: String)
    ensures
        r@ == "{ "@ + joined(box_slots(fields as nat), ", "@) + " }"@,
{
    let mut slots: Vec<String> = Vec::new();
    let mut i: usize = 0;
    while i < fields
        invariant
            i <= fields,
            slots@.len() == i,
            forall|k: int| 0 <= k < i ==> (#[trigger] slots@[k])@ == "i8*"@,
        decreases fields - i,
    {
        slots.push(owned("i8*"));
        i = i + 1;
    }
    assert(texts(slots@) =~= box_slots(fields as nat));
    let mut r = owned("{ ");
    let j = join(slots.as_slice(), ", ");
    r.append(j.as_str());
    r.append(" }");
    r
}

/// Owners whose heap layout is not the `{ i64 tag, fields… }` record block.
pub open spec fn opaque_owner_spec(owner: Seq<char>) -> bool {
    owner.len() == 0 || owner == "HttpResponse"@ || owner == "List"@ || owner == "Map"@
        || has_prefix(owner, "[]"@) || has_prefix(owner, "List#"@) || has_prefix(owner, "Gpu#"@)
        || has_prefix(owner, "Map#"@) || owner == "GpuBuffer"@
}

/// Owners whose heap layout is not the `{ i64 tag, fields… }` record block —
/// erasing one must never be walked as a row.
pub fn is_opaque_owner(owner: &str) -> (r: bool)
    ensures
        r == opaque_owner_spec(owner@),
{
    owner.unicode_len() == 0 || str_eq(owner, "HttpResponse") || str_eq(owner, "List") || str_eq(
        owner,
        "Map",
    ) || starts_with(owner, "[]") || starts_with(owner, "List#") || starts_with(owner, "Gpu#")
        || starts_with(owner, "Map#") || str_eq(owner, "GpuBuffer")
}

/// The rendering placeholder of an opaque owner.
pub open spec fn opaque_label_spec(owner: Seq<char>) -> Seq<char> {
    if has_prefix(owner, "[]"@) || has_prefix(owner, "List#"@) {
        "<list>"@
    } else if owner == "Map"@ || has_prefix(owner, "Map#"@) {
        "<map>"@
    } else if has_prefix(owner, "Gpu#"@) || owner == "GpuBuffer"@ {
        "<gpu>"@
    } else if owner == "List"@ {
        "<list>"@
    } else {
        "<handle>"@
    }
}

/// The rendering placeholder for an opaque owner: truthful about the KIND of
/// value without pretending to know its contents — never the raw word.
pub fn opaque_label(owner: &str) -> (r: &'static str)
    ensures
        r@ == opaque_label_spec(owner@),
{
    if starts_with(owner, "[]") || starts_with(owner, "List#") {
        "<list>"
    } else if str_eq(owner, "Map") || starts_with(owner, "Map#") {
        "<map>"
    } else if starts_with(owner, "Gpu#") || str_eq(owner, "GpuBuffer") {
        "<gpu>"
    } else if str_eq(owner, "List") {
        "<list>"
    } else {
        "<handle>"
    }
}

/// The meta fields of a deep-boxed row block: every slot is a managed child
/// box.
pub fn field_metas(fields: usize) -> (r: Vec<MetaField>)
    ensures
        r@ == Seq::new(fields as nat, |i: int| MetaField::PtrManaged),
{
    let mut r: Vec<MetaField> = Vec::new();
    let mut i: usize = 0;
    while i < fields
        invariant
            i <= fields,
            r@ =~= Seq::new(i as nat, |k: int| MetaField::PtrManaged),
        decreases fields - i,
    {
        r.push(MetaField::PtrManaged);
        i = i + 1;
        assert(r@ =~= Seq::new(i as nat, |k: int| MetaField::PtrManaged));
    }
    r
}

/// `s` is one of the names in `names`.
pub open spec fn named(names: Seq<Seq<char>>, s: Seq<char>) -> bool {
    exists|i: int| 0 <= i < names.len() && names[i] == s
}

/// Every name of `a` is a name of `b`.
pub open spec fn names_within(a: Seq<Seq<char>>, b: Seq<Seq<char>>) -> bool {
    forall|i: int| 0 <= i < a.len() ==> named(b, #[trigger] a[i])
}

/// A declared row is a candidate for a structural pattern naming `names`:
/// the same name set for a closed pattern, a superset for an open one.
pub open spec fn row_selected(row: Seq<Seq<char>>, names: Seq<Seq<char>>, open: bool) -> bool {
    if open {
        names_within(names, row)
    } else {
        names_within(names, row) && names_within(row, names)
    }
}

/// Whether `s` is one of `names`.
fn has_name(names: &[String], s: &str) -> (r: bool)
    ensures
        r == named(texts(names@), s@),
{
    let mut i: usize = 0;
    while i < names.len()
        invariant
            i <= names@.len(),
            forall|j: int| 0 <= j < i ==> names@[j]@ != s@,
        decreases names@.len() - i,
    {
        if str_eq(names[i].as_str(), s) {
            assert(texts(names@)[i as int] == s@);
            return true;
        }
        i = i + 1;
    }
    assert(!named(texts(names@), s@)) by {
        if named(texts(names@), s@) {
            let k = choose|k: int| 0 <= k < texts(names@).len() && texts(names@)[k] == s@;
            assert(names@[k]@ == s@);
        }
    }
    false
}

/// Whether every name of `a` is one of `b`.
fn all_within(a: &[String], b: &[String]) -> (r: bool)
    ensures
        r == names_within(texts(a@), texts(b@)),
{
    let mut i: usize = 0;
    while i < a.len()
        invariant
            i <= a@.len(),
            forall|j: int| 0 <= j < i ==> named(texts(b@), #[trigger] texts(a@)[j]),
        decreases a@.len() - i,
    {
        if !has_name(b, a[i].as_str()) {
            assert(!named(texts(b@), texts(a@)[i as int]));
            return false;
        }
        i = i + 1;
    }
    true
}

/// The name lists of a table of rows.
pub open spec fn row_texts(rows: Seq<Vec<String>>) -> Seq<Seq<Seq<char>>> {
    rows.map_values(|row: Vec<String>| texts(row@))
}

/// The rows of `rows`, in order, that a structural pattern naming `names`
/// selects.
pub open spec fn selected_rows(rows: Seq<Seq<Seq<char>>>, names: Seq<Seq<char>>, open: bool) -> Seq<
    Seq<Seq<char>>,
>
    decreases rows.len(),
{
    if rows.len() == 0 {
        Seq::empty()
    } else {
        let before = selected_rows(rows.drop_last(), names, open);
        if row_selected(rows.last(), names, open) {
            before.push(rows.last())
        } else {
            before
        }
    }
}

/// The declared row shapes a structural pattern naming `names` can select,
/// in table order: exact name-set equality for a closed pattern, superset for
/// an open one.
pub fn candidate_rows(rows: &[Vec<String>], names: &[String], open: bool) -> (r: Vec<Vec<String>>)
    ensures
        row_texts(r@) == selected_rows(row_texts(rows@), texts(names@), open),
{
    let mut r: Vec<Vec<String>> = Vec::new();
    let mut i: usize = 0;
    while i < rows.len()
        invariant
            i <= rows@.len(),
            row_texts(r@) == selected_rows(row_texts(rows@.subrange(0, i as int)), texts(names@), open),
        decreases rows@.len() - i,
    {
        let row = &rows[i];
        let keep = if open {
            all_within(names, row.as_slice())
        } else {
            all_within(names, row.as_slice()) && all_within(row.as_slice(), names)
        };
        let ghost before = r@;
        proof {
            let prev = row_texts(rows@.subrange(0, i as int));
            let next = row_texts(rows@.subrange(0, i + 1));
            assert(next.drop_last() =~= prev);
            assert(next.last() == texts(row@));
        }
        if keep {
            let copy = clone_names(row);
            r.push(copy);
            assert(row_texts(r@) =~= row_texts(before).push(texts(row@)));
        }
        i = i + 1;
    }
    assert(rows@.subrange(0, rows@.len() as int) =~= rows@);
    r
}

/// A copy of a list of names.
fn clone_names(names: &Vec<String>) -> (r: Vec<String>)
    ensures
        r@ == names@,
{
    let mut r: Vec<String> = Vec::new();
    let mut i: usize = 0;
    while i < names.len()
        invariant
            i <= names@.len(),
            r@ =~= names@.subrange(0, i as int),
        decreases names@.len() - i,
    {
        r.push(names[i].clone());
        i = i + 1;
        assert(r@ =~= names@.subrange(0, i as int));
    }
    assert(r@ =~= names@);
    r
}

/// The module function every erased value renders through.
pub const TO_STRING_FN: &'static str = "osp.any.to_string";

/// The signature of a descriptor's render function.
pub const RENDER_SIG: &'static str = "i8* (i8*, i64)";

/// The instructions that load the `(desc, payload)` pair of the box at
/// `operand`, the first register free being `n`.
pub open spec fn box_bodies(operand: Seq<char>, n: nat) -> Seq<Seq<char>> {
    seq![
        register(n) + " = "@ + "bitcast i8* "@ + operand + " to "@ + BOX_TY@ + "*"@,
        register(n + 1) + " = "@ + "getelementptr "@ + BOX_TY@ + ", "@ + BOX_TY@ + "* "@ + register(n) + ", i32 0, i32 0"@,
        register(n + 2) + " = "@ + "load i8*, i8** "@ + register(n + 1),
        register(n + 3) + " = "@ + "getelementptr "@ + BOX_TY@ + ", "@ + BOX_TY@ + "* "@ + register(n) + ", i32 0, i32 1"@,
        register(n + 4) + " = "@ + "load i64, i64* "@ + register(n + 3),
    ]
}

/// Load a box's `(desc, payload)` pair from its `i8*` operand.
#[verifier::rlimit(50)]
fn load_box(cg: &mut Codegen, operand: &str) -> (r: (String, String))
    requires
        old(cg).wf(),
        old(cg).state().regs + 5 <= usize::MAX,
        old(cg).debug_fits(5),
    ensures
        ({
            let n = old(cg).state().regs as nat;
            &&& r.0@ == register(n + 2)
            &&& r.1@ == register(n + 4)
            &&& emitted(*old(cg), *final(cg), box_bodies(operand@, n), 5)
            &&& same_externs(*old(cg), *final(cg))
        }),
{
    let ghost c0 = *cg;
    let ghost n = c0.state().regs as nat;
    let mut t0 = owned("bitcast i8* ");
    t0.append(operand);
    t0.append(" to ");
    t0.append(BOX_TY);
    t0.append("*");
    let bt = cg.emit_reg(t0.as_str());
    let ghost c1 = *cg;
    let mut t1 = owned("getelementptr ");
    t1.append(BOX_TY);
    t1.append(", ");
    t1.append(BOX_TY);
    t1.append("* ");
    t1.append(bt.as_str());
    t1.append(", i32 0, i32 0");
    let dp = cg.emit_reg(t1.as_str());
    let ghost c2 = *cg;
    let mut t2 = owned("load i8*, i8** ");
    t2.append(dp.as_str());
    let desc = cg.emit_reg(t2.as_str());
    let ghost c3 = *cg;
    let mut t3 = owned("getelementptr ");
    t3.append(BOX_TY);
    t3.append(", ");
    t3.append(BOX_TY);
    t3.append("* ");
    t3.append(bt.as_str());
    t3.append(", i32 0, i32 1");
    let pp = cg.emit_reg(t3.as_str());
    let ghost c4 = *cg;
    let mut t4 = owned("load i64, i64* ");
    t4.append(pp.as_str());
    let payload = cg.emit_reg(t4.as_str());
    proof {
        let b = box_bodies(operand@, n);
        assert(seq![bt@ + " = "@ + t0@] =~~= seq![b[0]]);
        assert(seq![dp@ + " = "@ + t1@] =~~= seq![b[1]]);
        assert(seq![desc@ + " = "@ + t2@] =~~= seq![b[2]]);
        assert(seq![pp@ + " = "@ + t3@] =~~= seq![b[3]]);
        assert(seq![payload@ + " = "@ + t4@] =~~= seq![b[4]]);
        lemma_emitted_trans(c0, c1, c2, seq![b[0]], 1, seq![b[1]], 1);
        lemma_emitted_trans(c0, c2, c3, seq![b[0]] + seq![b[1]], 2, seq![b[2]], 1);
        lemma_emitted_trans(c0, c3, c4, seq![b[0]] + seq![b[1]] + seq![b[2]], 3, seq![b[3]], 1);
        lemma_emitted_trans(c0, c4, *cg, seq![b[0]] + seq![b[1]] + seq![b[2]] + seq![b[3]], 4, seq![b[4]], 1);
        assert(seq![b[0]] + seq![b[1]] + seq![b[2]] + seq![b[3]] + seq![b[4]] =~= b);
    }
    (desc, payload)
}

/// The `(desc, payload)` of a box value in the current function: the entry
/// of a structural match.
pub fn open_box(cg: &mut Codegen, v: &Value) -> (r: (String, String))
    requires
        old(cg).wf(),
        old(cg).state().regs + 5 <= usize::MAX,
        old(cg).debug_fits(5),
    ensures
        ({
            let n = old(cg).state().regs as nat;
            &&& r.0@ == register(n + 2)
            &&& r.1@ == register(n + 4)
            &&& emitted(*old(cg), *final(cg), box_bodies(v.operand@, n), 5)
            &&& same_externs(*old(cg), *final(cg))
        }),
{
    load_box(cg, v.operand.as_str())
}

/// `after` is `before` with `r = call i8* @callee(i8* arg)` emitted and its
/// +1 result `r`, of type `ret`, owned by the current region.
pub open spec fn owned_called(before: Codegen, after: Codegen, r: Value, ret: LType, callee: Seq<char>, arg: Seq<char>) -> bool {
    let n = before.state().regs as nat;
    &&& in_register(r, n, ret)
    &&& exists|mid: Codegen|
        {
            &&& emitted(before, mid, seq![register(n) + " = "@ + "call i8* @"@ + callee + "(i8* "@ + arg + ")"@], 1)
            &&& same_externs(before, mid)
            &&& #[trigger] owns(mid, after, r)
        }
}

/// `call i8* @callee(i8* arg)`, whose +1 result the current region owns.
fn owned_call(cg: &mut Codegen, ret: LType, callee: &str, arg: &str) -> (r: Value)
    requires
        old(cg).wf(),
        old(cg).state().regs + 2 <= usize::MAX,
        old(cg).state().slots < usize::MAX,
        old(cg).debug_fits(3),
    ensures
        owned_called(*old(cg), *final(cg), r, ret, callee@, arg@),
{
    let mut rhs = owned("call i8* @");
    rhs.append(callee);
    rhs.append("(i8* ");
    rhs.append(arg);
    rhs.append(")");
    let reg = cg.emit_reg(rhs.as_str());
    let ghost mid = *cg;
    let out = own_value(cg, Value::new(reg.as_str(), ret));
    proof {
        let n = old(cg).state().regs as nat;
        assert(seq![reg@ + " = "@ + rhs@] =~~= seq![
            register(n) + " = "@ + "call i8* @"@ + callee@ + "(i8* "@ + arg@ + ")"@,
        ]);
        assert(emitted(*old(cg), mid, seq![register(n) + " = "@ + "call i8* @"@ + callee@ + "(i8* "@ + arg@ + ")"@], 1));
        assert(owns(mid, *cg, out));
    }
    out
}

/// The body of the erased-value renderer, its `null` text being the `k`-th
/// string constant: a null box renders as `null`; any other loads its
/// descriptor and payload and tails into the descriptor's render function.
pub open spec fn to_string_fn_lines(k: nat) -> Seq<Seq<char>> {
    seq!["entry:"@] + plain(
        seq![
            register(0) + " = "@ + "icmp eq i8* %box, null"@,
            "br i1 "@ + register(0) + ", label %"@ + label(0) + ", label %"@ + label(1),
        ],
    ) + seq![label(0) + ":"@] + plain(seq![const_gep(register(1), k, "null"@), "ret i8* "@ + register(1)])
        + seq![label(1) + ":"@] + plain(
        box_bodies("%box"@, 2) + seq![
            register(7) + " = "@ + "bitcast i8* "@ + register(4) + " to "@ + DESC_TY@ + "*"@,
            register(8) + " = "@ + "getelementptr "@ + DESC_TY@ + ", "@ + DESC_TY@ + "* "@ + register(7)
                + ", i32 0, i32 1"@,
            register(9) + " = "@ + "load i8*, i8** "@ + register(8),
            register(10) + " = "@ + "bitcast i8* "@ + register(9) + " to "@ + RENDER_SIG@ + "*"@,
            register(11) + " = "@ + "call i8* "@ + register(10) + "(i8* "@ + register(4) + ", i64 "@ + register(6)
                + ")"@,
            "ret i8* "@ + register(11),
        ],
    )
}

/// `after` is `before` with the erased-value renderer emitted, once: nothing
/// when it already was; else the function `osp.any.to_string(i8* %box)`
/// defined, with its `null` text interned.
pub open spec fn to_string_ready(before: Codegen, after: Codegen) -> bool {
    &&& after.wf()
    &&& after.coverage() == before.coverage()
    &&& before.state().to_string_emitted ==> unchanged(before, after)
    &&& !before.state().to_string_emitted ==> {
        let k = before.state().globs as nat;
        &&& after.state() == (Emission {
            funcs: before.state().funcs.push(
                define_text("i8*"@, TO_STRING_FN@, seq!["i8* %box"@], Seq::empty(), to_string_fn_lines(k)),
            ),
            globals: before.state().globals.push(const_global(k, "null"@)),
            globs: (k + 1) as usize,
            to_string_emitted: true,
            ..before.state()
        })
        &&& match before.debug() {
            Some(d) => after.debug() matches Some(e) && {
                &&& e.wf()
                &&& e.nodes() == d.nodes()
                &&& e.next() == d.next()
                &&& e.scope() == d.scope()
                &&& e.position() == d.position()
                &&& e.retained() == d.retained()
                &&& e.locals() == d.locals()
                &&& e.source() == d.source()
                &&& e.dwarf() == d.dwarf()
            },
            None => after.debug() is None,
        }
    }
}

/// The instructions that render the box `%box` through its descriptor's
/// render function and return the text, the first register free being `n`.
pub open spec fn render_tail_bodies(n: nat) -> Seq<Seq<char>> {
    box_bodies("%box"@, n) + seq![
        register(n + 5) + " = "@ + "bitcast i8* "@ + register(n + 2) + " to "@ + DESC_TY@ + "*"@,
        register(n + 6) + " = "@ + "getelementptr "@ + DESC_TY@ + ", "@ + DESC_TY@ + "* "@ + register(n + 5)
            + ", i32 0, i32 1"@,
        register(n + 7) + " = "@ + "load i8*, i8** "@ + register(n + 6),
        register(n + 8) + " = "@ + "bitcast i8* "@ + register(n + 7) + " to "@ + RENDER_SIG@ + "*"@,
        register(n + 9) + " = "@ + "call i8* "@ + register(n + 8) + "(i8* "@ + register(n + 2) + ", i64 "@
            + register(n + 4) + ")"@,
        "ret i8* "@ + register(n + 9),
    ]
}

/// Render `%box` through its descriptor and return the text.
#[verifier::rlimit(100)]
fn render_through_desc(cg: &mut Codegen)
    requires
        old(cg).wf(),
        old(cg).state().regs + 10 <= usize::MAX,
        old(cg).debug_fits(11),
    ensures
        emitted(*old(cg), *final(cg), render_tail_bodies(old(cg).state().regs as nat), 10),
        same_externs(*old(cg), *final(cg)),
{
    let ghost c0 = *cg;
    let ghost n = c0.state().regs as nat;
    let (desc, payload) = load_box(cg, "%box");
    let ghost c1 = *cg;
    let mut t7 = owned("bitcast i8* ");
    t7.append(desc.as_str());
    t7.append(" to ");
    t7.append(DESC_TY);
    t7.append("*");
    let dt = cg.emit_reg(t7.as_str());
    let ghost c2 = *cg;
    let mut t8 = owned("getelementptr ");
    t8.append(DESC_TY);
    t8.append(", ");
    t8.append(DESC_TY);
    t8.append("* ");
    t8.append(dt.as_str());
    t8.append(", i32 0, i32 1");
    let rp = cg.emit_reg(t8.as_str());
    let ghost c3 = *cg;
    let mut t9 = owned("load i8*, i8** ");
    t9.append(rp.as_str());
    let raw = cg.emit_reg(t9.as_str());
    let ghost c4 = *cg;
    let mut t10 = owned("bitcast i8* ");
    t10.append(raw.as_str());
    t10.append(" to ");
    t10.append(RENDER_SIG);
    t10.append("*");
    let f = cg.emit_reg(t10.as_str());
    let ghost c5 = *cg;
    let mut t11 = owned("call i8* ");
    t11.append(f.as_str());
    t11.append("(i8* ");
    t11.append(desc.as_str());
    t11.append(", i64 ");
    t11.append(payload.as_str());
    t11.append(")");
    let rs = cg.emit_reg(t11.as_str());
    let ghost c6 = *cg;
    let mut ret1 = owned("ret i8* ");
    ret1.append(rs.as_str());
    cg.emit(ret1.as_str());
    proof {
        let b = render_tail_bodies(n);
        let bb = box_bodies("%box"@, n);
        assert(seq![dt@ + " = "@ + t7@] =~~= seq![b[5]]);
        assert(seq![rp@ + " = "@ + t8@] =~~= seq![b[6]]);
        assert(seq![raw@ + " = "@ + t9@] =~~= seq![b[7]]);
        assert(seq![f@ + " = "@ + t10@] =~~= seq![b[8]]);
        assert(seq![rs@ + " = "@ + t11@] =~~= seq![b[9]]);
        assert(seq![ret1@] =~~= seq![b[10]]);
        lemma_emitted_trans(c0, c1, c2, bb, 5, seq![b[5]], 1);
        lemma_emitted_trans(c0, c2, c3, bb + seq![b[5]], 6, seq![b[6]], 1);
        lemma_emitted_trans(c0, c3, c4, bb + seq![b[5]] + seq![b[6]], 7, seq![b[7]], 1);
        lemma_emitted_trans(c0, c4, c5, bb + seq![b[5]] + seq![b[6]] + seq![b[7]], 8, seq![b[8]], 1);
        lemma_emitted_trans(c0, c5, c6, bb + seq![b[5]] + seq![b[6]] + seq![b[7]] + seq![b[8]], 9, seq![b[9]], 1);
        lemma_emitted_trans(
            c0,
            c6,
            *cg,
            bb + seq![b[5]] + seq![b[6]] + seq![b[7]] + seq![b[8]] + seq![b[9]],
            10,
            seq![b[10]],
            0,
        );
        assert(bb + seq![b[5]] + seq![b[6]] + seq![b[7]] + seq![b[8]] + seq![b[9]] + seq![b[10]] =~= b);
    }
}

/// Emit `osp.any.to_string` once.
#[verifier::rlimit(60)]
fn ensure_to_string(cg: &mut Codegen)
    requires
        old(cg).wf(),
        old(cg).state().globs < usize::MAX,
        old(cg).debug_fits(11),
    ensures
        to_string_ready(*old(cg), *final(cg)),
{
    if cg.to_string_emitted() {
        return;
    }
    proof {
        lemma_wf_debug(*old(cg));
        reveal_strlit("null");
        crate::builder::lemma_ascii_fits("null"@);
    }
    cg.mark_to_string_emitted();
    let ghost k = old(cg).state().globs as nat;
    let saved = cg.enter_nested_fn();
    let null_lbl = cg.fresh_label();
    let body_lbl = cg.fresh_label();
    let isnull = cg.emit_reg("icmp eq i8* %box, null");
    let mut br = owned("br i1 ");
    br.append(isnull.as_str());
    br.append(", label %");
    br.append(null_lbl.as_str());
    br.append(", label %");
    br.append(body_lbl.as_str());
    cg.emit(br.as_str());
    cg.start_block(null_lbl.as_str());
    let none = cg.string_constant("null");
    let mut ret0 = owned("ret i8* ");
    ret0.append(none.operand.as_str());
    cg.emit(ret0.as_str());
    cg.start_block(body_lbl.as_str());
    let ghost c5 = *cg;
    render_through_desc(cg);
    let mut params: Vec<(LType, String)> = Vec::new();
    params.push((LType::Ptr, owned("box")));
    proof {
        assert(location_of(c5.debug()) is None);
        assert(located_lines(render_tail_bodies(2), c5.debug()) =~= plain(render_tail_bodies(2)));
        assert(render_tail_bodies(2) =~~= box_bodies("%box"@, 2) + seq![
            register(7) + " = "@ + "bitcast i8* "@ + register(4) + " to "@ + DESC_TY@ + "*"@,
            register(8) + " = "@ + "getelementptr "@ + DESC_TY@ + ", "@ + DESC_TY@ + "* "@ + register(7)
                + ", i32 0, i32 1"@,
            register(9) + " = "@ + "load i8*, i8** "@ + register(8),
            register(10) + " = "@ + "bitcast i8* "@ + register(9) + " to "@ + RENDER_SIG@ + "*"@,
            register(11) + " = "@ + "call i8* "@ + register(10) + "(i8* "@ + register(4) + ", i64 "@ + register(6)
                + ")"@,
            "ret i8* "@ + register(11),
        ]);
        assert(cg.state().lines =~~= to_string_fn_lines(k));
        reveal_strlit("i8*");
        reveal_strlit(" %");
        reveal_strlit("box");
        reveal_strlit("i8* %box");
        assert(param_texts_box(params@));
        if old(cg).debug() is Some {
            lemma_retained_pending(old(cg).debug()->0);
        }
    }
    cg.exit_nested_fn(saved, "i8*", TO_STRING_FN, params.as_slice());
}

/// The parameter list `(i8* %box)`.
pub open spec fn param_texts_box(params: Seq<(LType, String)>) -> bool {
    crate::builder::param_texts(params) =~~= seq!["i8* %box"@]
}

/// Render an erased value through its descriptor; the fresh string is owned
/// by the current region.
pub fn any_to_string(cg: &mut Codegen, v: &Value) -> (r: Value)
    requires
        old(cg).wf(),
        old(cg).state().globs < usize::MAX,
        old(cg).state().regs + 2 <= usize::MAX,
        old(cg).state().slots < usize::MAX,
        old(cg).debug_fits(11),
    ensures
        exists|mid: Codegen|
            to_string_ready(*old(cg), mid) && #[trigger] owned_called(mid, *final(cg), r, LType::Str, TO_STRING_FN@, v.operand@),
{
    ensure_to_string(cg);
    let ghost mid = *cg;
    let r = owned_call(cg, LType::Str, TO_STRING_FN, v.operand.as_str());
    assert(owned_called(mid, *cg, r, LType::Str, TO_STRING_FN@, v.operand@));
    r
}

} // verus!
