//! The lexical scopes of the function being emitted, and the text escaping
//! of the emitted module: C string constants and debug metadata strings.

use crate::arc::ArcLedger;
use crate::ast::Position;
use crate::coverage::CoverageState;
use crate::coverage::{ascending, coverable_lines, init_text, lemma_walk_ascending, sorted_lines, stmts_lines};
use vstd::std_specs::btree::spec_btree_keys_iter;
use crate::ast::Program;
use crate::debug_info::{
    column_of, dwarf_version_for, fixed_lines, host_dwarf_version, line_of, location_text, node,
    retained_text, subprogram_line, subprogram_text, DebugSource, DebugState, CU_ID,
    DEBUG_VERSION_FLAG_ID, DWARF_FLAG_ID, FIRST_DYNAMIC_ID, IDENT_ID,
};
use crate::llty::joined;
use crate::llty::{LType, Value};
use crate::names::NameSet;
use vstd::std_specs::iter::IteratorSpec;
use crate::meta::KIND_RAW;
use crate::text::{decimal, owned, push_decimal, push_signed, signed_decimal, str_eq};
use vstd::string::StringExecFns;
use vstd::prelude::*;
use vstd::utf8::encode_utf8;

verus! {

/// The uppercase hexadecimal digit for `d < 16`.
pub open spec fn hex_digit(d: nat) -> char {
    if d < 10 {
        digit_of(d)
    } else if d == 10 {
        'A'
    } else if d == 11 {
        'B'
    } else if d == 12 {
        'C'
    } else if d == 13 {
        'D'
    } else if d == 14 {
        'E'
    } else {
        'F'
    }
}

/// The decimal digit for `d < 10`.
pub open spec fn digit_of(d: nat) -> char {
    crate::text::digit_char(d)
}

/// The uppercase hexadecimal digit for `d`.
fn hex(d: u8) -> (c: char)
    requires
        d < 16,
    ensures
        c == hex_digit(d as nat),
{
    if d == 0 {
        '0'
    } else if d == 1 {
        '1'
    } else if d == 2 {
        '2'
    } else if d == 3 {
        '3'
    } else if d == 4 {
        '4'
    } else if d == 5 {
        '5'
    } else if d == 6 {
        '6'
    } else if d == 7 {
        '7'
    } else if d == 8 {
        '8'
    } else if d == 9 {
        '9'
    } else if d == 10 {
        'A'
    } else if d == 11 {
        'B'
    } else if d == 12 {
        'C'
    } else if d == 13 {
        'D'
    } else if d == 14 {
        'E'
    } else {
        'F'
    }
}

/// A byte kept as itself in a C string body: printable ASCII other than `"`
/// and `\`.
pub open spec fn kept_byte(b: u8) -> bool {
    0x20 <= b <= 0x7e && b != 0x5c && b != 0x22
}

/// The C-string body spelling of one byte: itself when kept, else `\HH` with
/// two uppercase hexadecimal digits (so `\` is `\5C` and `"` is `\22`).
pub open spec fn escaped_byte(b: u8) -> Seq<char> {
    if kept_byte(b) {
        seq![b as char]
    } else {
        seq!['\\', hex_digit((b / 16) as nat), hex_digit((b % 16) as nat)]
    }
}

/// The C-string body spelling of a byte string.
pub open spec fn escaped_bytes(bs: Seq<u8>) -> Seq<char>
    decreases bs.len(),
{
    if bs.len() == 0 {
        Seq::empty()
    } else {
        escaped_bytes(bs.drop_last()) + escaped_byte(bs.last())
    }
}

/// Escape text into an LLVM `c"..."` body, returning the escaped text and the
/// byte length **including** the trailing NUL. Bytes of the UTF-8 encoding
/// outside printable ASCII (and `"`/`\`) are emitted as `\HH`.
pub fn escape_c_string(text: &str) -> (r: (String, usize))
    requires
        encode_utf8(text@).len() < usize::MAX,
    ensures
        r.0@ == escaped_bytes(encode_utf8(text@)) + seq!['\\', '0', '0'],
        r.1 == encode_utf8(text@).len() + 1,
        crate::text::decoded(r.0@) == encode_utf8(text@).push(0),
        crate::text::decoded(r.0@).len() == r.1,
        crate::text::printable(r.0@),
{
    let bytes = text.as_bytes();
    let mut out = String::new();
    let mut i: usize = 0;
    while i < bytes.len()
        invariant
            bytes@ == encode_utf8(text@),
            i <= bytes@.len(),
            out@ == escaped_bytes(bytes@.subrange(0, i as int)),
        decreases bytes@.len() - i,
    {
        let b = bytes[i];
        proof {
            assert(bytes@.subrange(0, i + 1).drop_last() =~= bytes@.subrange(0, i as int));
        }
        if 0x20 <= b && b <= 0x7e && b != 0x5c && b != 0x22 {
            out.push(b as char);
        } else {
            out.push('\\');
            out.push(hex(b / 16));
            out.push(hex(b % 16));
        }
        i = i + 1;
        proof {
            assert(out@ =~= escaped_bytes(bytes@.subrange(0, i as int)));
        }
    }
    out.push('\\');
    out.push('0');
    out.push('0');
    assert(bytes@.subrange(0, bytes@.len() as int) =~= bytes@);
    proof {
        crate::text::law_escape_round_trip(bytes@);
    }
    (out, bytes.len() + 1)
}

/// The debug-metadata string spelling of one character.
pub open spec fn escaped_meta_char(c: char) -> Seq<char> {
    if c == '\\' {
        seq!['\\', '\\']
    } else if c == '"' {
        seq!['\\', '"']
    } else {
        seq![c]
    }
}

/// The debug-metadata string spelling of a text.
pub open spec fn escaped_meta(s: Seq<char>) -> Seq<char>
    decreases s.len(),
{
    if s.len() == 0 {
        Seq::empty()
    } else {
        escaped_meta(s.drop_last()) + escaped_meta_char(s.last())
    }
}

/// Escape text for a `!"..."` debug-metadata string: `\` and `"` are
/// backslash-escaped, every other character is kept.
pub fn metadata_escape(text: &str) -> (r: String)
    ensures
        r@ == escaped_meta(text@),
{
    let n = vstd::string::StrSliceExecFns::unicode_len(text);
    let mut out = String::new();
    let mut i: usize = 0;
    while i < n
        invariant
            n == text@.len(),
            i <= n,
            out@ == escaped_meta(text@.subrange(0, i as int)),
        decreases n - i,
    {
        let c = vstd::string::StrSliceExecFns::get_char(text, i);
        proof {
            assert(text@.subrange(0, i + 1).drop_last() =~= text@.subrange(0, i as int));
        }
        if c == '\\' {
            out.push('\\');
            out.push('\\');
        } else if c == '"' {
            out.push('\\');
            out.push('"');
        } else {
            out.push(c);
        }
        i = i + 1;
        proof {
            assert(out@ =~= escaped_meta(text@.subrange(0, i as int)));
        }
    }
    assert(text@.subrange(0, n as int) =~= text@);
    out
}

/// The value most recently bound to `name` in one scope, if any.
pub open spec fn scope_get(scope: Seq<(Seq<char>, Value)>, name: Seq<char>) -> Option<Value>
    decreases scope.len(),
{
    if scope.len() == 0 {
        None
    } else if scope.last().0 == name {
        Some(scope.last().1)
    } else {
        scope_get(scope.drop_last(), name)
    }
}

/// The value `name` resolves to: its binding in the innermost scope that has
/// one.
pub open spec fn resolve(scopes: Seq<Seq<(Seq<char>, Value)>>, name: Seq<char>) -> Option<Value>
    decreases scopes.len(),
{
    if scopes.len() == 0 {
        None
    } else {
        match scope_get(scopes.last(), name) {
            Some(v) => Some(v),
            None => resolve(scopes.drop_last(), name),
        }
    }
}

/// A name bound in the innermost scope resolves to that value, and binding it
/// changes what no other name resolves to.
pub proof fn law_bind_then_get(
    frames: Seq<Seq<(Seq<char>, Value)>>,
    name: Seq<char>,
    value: Value,
    other: Seq<char>,
)
    requires
        frames.len() > 0,
    ensures
        ({
            let bound = frames.update(frames.len() - 1, frames.last().push((name, value)));
            &&& resolve(bound, name) == Some(value)
            &&& other != name ==> resolve(bound, other) == resolve(frames, other)
        }),
{
    let bound = frames.update(frames.len() - 1, frames.last().push((name, value)));
    assert(bound.last() == frames.last().push((name, value)));
    assert(bound.drop_last() =~= frames.drop_last());
    assert(frames.last().push((name, value)).drop_last() =~= frames.last());
}

/// Opening a scope changes what no name resolves to.
pub proof fn law_push_scope_keeps_lookups(frames: Seq<Seq<(Seq<char>, Value)>>, name: Seq<char>)
    ensures
        resolve(frames.push(Seq::empty()), name) == resolve(frames, name),
{
    assert(frames.push(Seq::empty()).drop_last() =~= frames);
}

/// Closing a scope forgets exactly the bindings made in it: after opening a
/// scope and binding in it, closing it restores every lookup.
pub proof fn law_pop_scope_forgets_inner_bindings(
    frames: Seq<Seq<(Seq<char>, Value)>>,
    inner: Seq<(Seq<char>, Value)>,
    name: Seq<char>,
)
    ensures
        resolve(frames.push(inner).drop_last(), name) == resolve(frames, name),
{
    assert(frames.push(inner).drop_last() =~= frames);
}

/// The bindings of one scope, by name text.
pub open spec fn scope_view(f: Seq<(String, Value)>) -> Seq<(Seq<char>, Value)> {
    f.map_values(|b: (String, Value)| (b.0@, b.1))
}

/// The stack of lexical scopes of the function being emitted: each scope maps
/// source names to the values they are bound to, an inner binding shadowing
/// an outer one.
#[derive(Debug)]
pub struct Scopes {
    frames: Vec<Vec<(String, Value)>>,
}

impl Scopes {
    /// The scopes, outermost first, each holding its bindings in order.
    pub closed spec fn frames(&self) -> Seq<Seq<(Seq<char>, Value)>> {
        self.frames@.map_values(|f: Vec<(String, Value)>| scope_view(f@))
    }

    /// What `name` resolves to.
    pub open spec fn get(&self, name: Seq<char>) -> Option<Value> {
        resolve(self.frames(), name)
    }

    /// No scope at all.
    pub fn new() -> (r: Scopes)
        ensures
            r.frames() == Seq::<Seq<(Seq<char>, Value)>>::empty(),
    {
        let r = Scopes { frames: Vec::new() };
        assert(r.frames() =~= Seq::<Seq<(Seq<char>, Value)>>::empty());
        r
    }

    /// The number of open scopes.
    pub fn depth(&self) -> (r: usize)
        ensures
            r == self.frames().len(),
    {
        self.frames.len()
    }

    /// Open a fresh, empty innermost scope.
    pub fn push_scope(&mut self)
        ensures
            final(self).frames() == old(self).frames().push(Seq::empty()),
    {
        let v: Vec<(String, Value)> = Vec::new();
        assert(scope_view(v@) =~= Seq::<(Seq<char>, Value)>::empty());
        self.frames.push(v);
        assert(self.frames() =~= old(self).frames().push(Seq::empty()));
    }

    /// Close the innermost scope, dropping its bindings; no-op with none open.
    pub fn pop_scope(&mut self)
        ensures
            old(self).frames().len() > 0 ==> final(self).frames() == old(self).frames().drop_last(),
            old(self).frames().len() == 0 ==> final(self).frames() == old(self).frames(),
    {
        let _ = self.frames.pop();
        assert(old(self).frames().len() > 0 ==> self.frames() =~= old(self).frames().drop_last());
        assert(old(self).frames().len() == 0 ==> self.frames() =~= old(self).frames());
    }

    /// Bind `name` to `value` in the innermost scope, replacing a binding of
    /// the same name there; no-op with no scope open.
    pub fn bind(&mut self, name: &str, value: Value)
        ensures
            old(self).frames().len() > 0 ==> final(self).frames() == old(self).frames().update(
                old(self).frames().len() - 1,
                old(self).frames().last().push((name@, value)),
            ),
            old(self).frames().len() == 0 ==> final(self).frames() == old(self).frames(),
    {
        let n = self.frames.len();
        if n == 0 {
            return;
        }
        let ghost before = self.frames();
        let mut last = self.frames.pop().unwrap();
        let ghost last0 = last@;
        last.push((owned(name), value));
        assert(scope_view(last@) =~= scope_view(last0).push((name@, value)));
        self.frames.push(last);
        assert(self.frames() =~= before.update(before.len() - 1, before.last().push((name@, value))));
    }

    /// The value bound to `name` in one scope, most recent binding first.
    fn scope_lookup(scope: &Vec<(String, Value)>, name: &str) -> (r: Option<Value>)
        ensures
            r == scope_get(scope_view(scope@), name@),
    {
        let ghost sv = scope_view(scope@);
        let mut k: usize = scope.len();
        assert(sv.subrange(0, k as int) =~= sv);
        while k > 0
            invariant
                k <= scope@.len(),
                sv == scope_view(scope@),
                scope_get(sv, name@) == scope_get(sv.subrange(0, k as int), name@),
            decreases k,
        {
            proof {
                assert(sv.subrange(0, k as int).drop_last() =~= sv.subrange(0, k - 1));
                assert(sv.subrange(0, k as int).last() == (scope@[k - 1].0@, scope@[k - 1].1));
            }
            if str_eq(scope[k - 1].0.as_str(), name) {
                return Some(scope[k - 1].1.duplicate());
            }
            k = k - 1;
        }
        None
    }

    /// The value `name` resolves to: its binding in the innermost scope that
    /// has one.
    pub fn lookup(&self, name: &str) -> (r: Option<Value>)
        ensures
            r == self.get(name@),
    {
        let mut k: usize = self.frames.len();
        assert(self.frames().subrange(0, k as int) =~= self.frames());
        while k > 0
            invariant
                k <= self.frames().len(),
                self.frames().len() == self.frames@.len(),
                self.get(name@) == resolve(self.frames().subrange(0, k as int), name@),
            decreases k,
        {
            proof {
                assert(self.frames().subrange(0, k as int).drop_last() =~= self.frames().subrange(
                    0,
                    k - 1,
                ));
                assert(self.frames()[k - 1] == scope_view(self.frames@[k - 1]@));
            }
            match Self::scope_lookup(&self.frames[k - 1], name) {
                Some(v) => {
                    return Some(v);
                },
                None => {},
            }
            k = k - 1;
        }
        None
    }
}


/// Code generation switches that alter the emitted module without changing
/// Osprey semantics.
#[derive(Debug, Clone)]
pub struct CodegenOptions {
    /// Source file identity used for LLVM/DWARF debug metadata.
    pub debug_source: Option<DebugSource>,
    /// Instrument coverable lines with hit counters.
    pub coverage: bool,
}

impl Default for CodegenOptions {
    /// No debug metadata, no coverage.
    fn default() -> (r: CodegenOptions)
        ensures
            r.debug_source is None,
            !r.coverage,
    {
        CodegenOptions { debug_source: None, coverage: false }
    }
}

/// The attribute group applied to every generated function: keep frame
/// pointers in all functions, so a profiler's frame-pointer walk is valid
/// from any sample point.
pub const FRAME_POINTER_ATTRS: &'static str = "attributes #0 = { \"frame-pointer\"=\"all\" }";

/// The swappable allocation hook. The allocator attributes let LLVM delete a
/// non-escaping allocation outright; the custom allocation family stops it
/// rewriting the hook into libc calls that would bypass the memory backend.
pub const OSP_ALLOC_DECL: &'static str = "declare noalias i8* @osp_alloc(i64) allocsize(0) allockind(\"alloc,uninitialized\") mustprogress nounwind willreturn \"alloc-family\"=\"osprey\"";

/// The layout-carrying twin of [`OSP_ALLOC_DECL`]: the same attributes, plus
/// the meta word the ARC backend stores in the object header.
pub const OSP_ALLOC_TAGGED_DECL: &'static str = "declare noalias i8* @osp_alloc_tagged(i64, i64) allocsize(0) allockind(\"alloc,uninitialized\") mustprogress nounwind willreturn \"alloc-family\"=\"osprey\"";

/// The allocation hook a site with layout word `meta` calls.
pub open spec fn alloc_decl(meta: i64) -> Seq<char> {
    if meta == KIND_RAW {
        OSP_ALLOC_DECL@
    } else {
        OSP_ALLOC_TAGGED_DECL@
    }
}

/// The allocation call for `size` bytes with layout word `meta`.
pub open spec fn alloc_rhs(size: Seq<char>, meta: i64) -> Seq<char> {
    if meta == KIND_RAW {
        "call i8* @osp_alloc(i64 "@ + size + ")"@
    } else {
        "call i8* @osp_alloc_tagged(i64 "@ + size + ", i64 "@ + signed_decimal(meta as int) + ")"@
    }
}

/// The private global holding a string constant: its escaped bytes and
/// length (the trailing NUL included).
pub open spec fn string_global(name: Seq<char>, escaped: Seq<char>, len: nat) -> Seq<char> {
    name + " = private unnamed_addr constant ["@ + decimal(len) + " x i8] c\""@ + escaped + "\""@
}

/// The pointer to the first byte of a string constant.
pub open spec fn string_gep(reg: Seq<char>, name: Seq<char>, len: nat) -> Seq<char> {
    reg + " = getelementptr ["@ + decimal(len) + " x i8], ["@ + decimal(len) + " x i8]* "@ + name
        + ", i64 0, i64 0"@
}

/// What a code generation state holds, as the contracts see it.
pub struct Emission {
    /// The `declare` lines, in increasing order.
    pub externs: Seq<Seq<char>>,
    /// The module-level global definitions, in order.
    pub globals: Seq<Seq<char>>,
    /// The finished `define` blocks, in order.
    pub funcs: Seq<Seq<char>>,
    /// String constants interned so far.
    pub globs: usize,
    /// SSA registers handed out in the current function.
    pub regs: usize,
    /// Labels handed out in the current function.
    pub labels: usize,
    /// The lines of the current function.
    pub lines: Seq<Seq<char>>,
    /// The current basic block's label.
    pub block: Seq<char>,
    /// The lexical scopes of the current function.
    pub frames: Seq<Seq<(Seq<char>, Value)>>,
    /// Handler functions named so far.
    pub handlers: usize,
    /// Lifted lambdas named so far.
    pub lambdas: usize,
    /// ARC spill slots hoisted in the current function.
    pub slots: usize,
    /// The ownership ledger of the current function.
    pub arc: ArcLedger,
    /// Whether any testing built-in was lowered.
    pub testing_used: bool,
    /// Whether the erased-value renderer has been emitted.
    pub to_string_emitted: bool,
    /// The registers of the current function that point into a private
    /// constant (string literals): never heap-owned.
    pub rodata: Set<Seq<char>>,
}

/// The emitter state of the code generator: the module being built (external
/// declarations, globals, finished functions) and the function being emitted
/// (SSA and label counters, lines, current block, lexical scopes, ownership
/// ledger), with debug metadata and coverage state when requested.
pub struct Codegen {
    externs: NameSet,
    globals: Vec<String>,
    funcs: Vec<String>,
    glob_count: usize,
    reg_count: usize,
    label_count: usize,
    cur_lines: Vec<String>,
    cur_block: String,
    scopes: Scopes,
    handler_count: usize,
    lambda_count: usize,
    testing_used: bool,
    to_string_emitted: bool,
    debug: Option<DebugState>,
    coverage: Option<CoverageState>,
    arc: ArcLedger,
    arc_slot_count: usize,
    rodata_regs: NameSet,
}

/// A fresh emitter state: nothing emitted, block `entry`, no scope, the
/// ledger `arc`.
pub open spec fn fresh_emission(arc: ArcLedger) -> Emission {
    Emission {
        externs: Seq::empty(),
        globals: Seq::empty(),
        funcs: Seq::empty(),
        globs: 0,
        regs: 0,
        labels: 0,
        lines: Seq::empty(),
        block: "entry"@,
        frames: Seq::empty(),
        handlers: 0,
        lambdas: 0,
        slots: 0,
        arc: arc,
        testing_used: false,
        to_string_emitted: false,
        rodata: Set::empty(),
    }
}

/// A debug state just opened for `source`, announcing DWARF `dwarf`.
pub open spec fn fresh_debug(d: DebugState, source: DebugSource, dwarf: u8) -> bool {
    &&& d.wf()
    &&& d.source() == source
    &&& d.dwarf() == dwarf
    &&& d.next() == FIRST_DYNAMIC_ID
    &&& d.nodes() == Seq::<(usize, Seq<char>)>::empty()
    &&& d.scope() is None
    &&& d.position() is None
    &&& d.retained() is None
    &&& d.locals() == Seq::<usize>::empty()
}

/// The location id an instruction emitted now is tagged with: a fresh node,
/// inside a function with a known position under debug; none otherwise.
pub open spec fn location_of(debug: Option<DebugState>) -> Option<usize> {
    match debug {
        Some(d) => match (d.scope(), d.position()) {
            (Some(_), Some(_)) => Some(d.next()),
            _ => None,
        },
        None => None,
    }
}

/// `d1` is `d0` after allocating the location node of an instruction; the
/// same state when there is none to allocate.
pub open spec fn located(d0: Option<DebugState>, d1: Option<DebugState>) -> bool {
    match d0 {
        Some(d) => match (d.scope(), d.position()) {
            (Some(scope), Some(p)) => (d1 matches Some(e) && {
                &&& e.wf()
                &&& e.next() == d.next() + 1
                &&& e.nodes() == d.nodes().push(
                    (d.next(), location_text(d.next() as nat, line_of(p), column_of(p), scope as nat)),
                )
                &&& e.scope() == d.scope()
                &&& e.position() == d.position()
                &&& e.retained() == d.retained()
                &&& e.locals() == d.locals()
                &&& e.source() == d.source()
                &&& e.dwarf() == d.dwarf()
            }),
            _ => d1 == d0,
        },
        None => d1 == d0,
    }
}

/// The text of an emitted instruction: indented, and tagged with its
/// location under debug.
pub open spec fn instruction(line: Seq<char>, loc: Option<usize>) -> Seq<char> {
    match loc {
        Some(id) => "  "@ + line + ", !dbg !"@ + decimal(id as nat),
        None => "  "@ + line,
    }
}

/// `%r<n>`: the SSA register numbered `n`.
pub open spec fn register(n: nat) -> Seq<char> {
    "%r"@ + decimal(n)
}

/// `L<n>`: the label numbered `n`.
pub open spec fn label(n: nat) -> Seq<char> {
    "L"@ + decimal(n)
}

/// `e` is `d` with the subprogram of a function spelled `name` at `position`
/// opened.
pub open spec fn opened(d: DebugState, e: DebugState, name: Seq<char>, position: Option<Position>) -> bool {
    &&& e.wf()
    &&& e.next() == d.next() + 2
    &&& e.nodes() == d.nodes().push(
        (
            (d.next() + 1) as usize,
            subprogram_text((d.next() + 1) as nat, escaped_meta(name), subprogram_line(position), d.next() as nat),
        ),
    )
    &&& e.scope() == Some((d.next() + 1) as usize)
    &&& e.position() == position
    &&& e.retained() == Some(d.next())
    &&& e.locals() == Seq::<usize>::empty()
    &&& e.source() == d.source()
    &&& e.dwarf() == d.dwarf()
}

/// `e` is `d` with the current function closed: its retained-nodes tuple
/// defined, and no function current.
pub open spec fn closed_fn(d: DebugState, e: DebugState) -> bool {
    &&& e.wf()
    &&& e.nodes() == match d.retained() {
        Some(r) => d.nodes().push((r, retained_text(r as nat, d.locals()))),
        None => d.nodes(),
    }
    &&& e.next() == d.next()
    &&& e.scope() is None
    &&& e.position() is None
    &&& e.retained() is None
    &&& e.locals() == Seq::<usize>::empty()
    &&& e.source() == d.source()
    &&& e.dwarf() == d.dwarf()
}

/// The `param` of a `define` line: its type and `%`-prefixed name.
pub open spec fn param_texts(params: Seq<(LType, String)>) -> Seq<Seq<char>> {
    params.map_values(|p: (LType, String)| p.0.spelling() + " %"@ + p.1@)
}

/// The ` !dbg !<id>` attachment of a `define` under debug.
pub open spec fn define_dbg(debug: Option<DebugState>) -> Seq<char> {
    match debug {
        Some(d) => match d.scope() {
            Some(id) => " !dbg !"@ + decimal(id as nat),
            None => Seq::empty(),
        },
        None => Seq::empty(),
    }
}

/// A finished function, its parameters already spelled.
pub open spec fn define_text(
    ret: Seq<char>,
    name: Seq<char>,
    params: Seq<Seq<char>>,
    dbg: Seq<char>,
    lines: Seq<Seq<char>>,
) -> Seq<char> {
    "define "@ + ret + " @"@ + name + "("@ + joined(params, ", "@) + ") #0"@ + dbg
        + " {\n"@ + joined(lines, "\n"@) + "\n}"@
}

/// Each of `xs` followed by a newline.
pub open spec fn lines_text(xs: Seq<Seq<char>>) -> Seq<char>
    decreases xs.len(),
{
    if xs.len() == 0 {
        Seq::empty()
    } else {
        lines_text(xs.drop_last()) + xs.last() + "\n"@
    }
}

/// The header line of every module.
pub open spec fn module_header() -> Seq<char> {
    "; Generated by osprey-rs (Rust LLVM-text backend)\n\n"@
}

/// The `source_filename` line under debug.
pub open spec fn source_text(debug: Option<DebugState>) -> Seq<char> {
    match debug {
        Some(d) => "source_filename = \""@ + escaped_meta(d.source().path@) + "\"\n\n"@,
        None => Seq::empty(),
    }
}

/// The external declarations, the globals and the functions.
pub open spec fn sections_text(s: Emission) -> Seq<char> {
    lines_text(s.externs) + "\n"@ + lines_text(s.globals) + "\n"@ + joined(s.funcs, "\n\n"@)
        + "\n"@
}

/// The coverage registration function, when instrumenting.
pub open spec fn coverage_text(coverage: Option<CoverageState>) -> Seq<char> {
    match coverage {
        Some(c) => "\n"@ + init_text(sorted_lines(c.lines())) + "\n"@,
        None => Seq::empty(),
    }
}

/// The named metadata lists and every metadata definition, under debug.
pub open spec fn metadata_text(debug: Option<DebugState>) -> Seq<char> {
    match debug {
        Some(d) => "\n"@ + "!llvm.dbg.cu = !{"@ + node(CU_ID as nat) + "}"@ + "\n"@
            + "!llvm.module.flags = !{"@ + node(DWARF_FLAG_ID as nat) + ", "@ + node(
            DEBUG_VERSION_FLAG_ID as nat,
        ) + "}"@ + "\n"@ + "!llvm.ident = !{"@ + node(IDENT_ID as nat) + "}"@ + "\n"@ + lines_text(
            fixed_lines(d.source().filename@, d.source().directory@, d.dwarf()) + d.nodes().map_values(
                |n: (usize, Seq<char>)| n.1,
            ),
        ),
        None => Seq::empty(),
    }
}

/// The whole module text: header, source file name under debug, external
/// declarations, globals, functions, the coverage registration function when
/// instrumenting, the function attributes, and the debug metadata.
pub open spec fn module_text(s: Emission, debug: Option<DebugState>, coverage: Option<CoverageState>) -> Seq<char> {
    module_header() + source_text(debug) + sections_text(s) + coverage_text(coverage)
        + FRAME_POINTER_ATTRS@ + "\n"@ + metadata_text(debug)
}

/// Append each of `xs`, each followed by a newline, to `out`.
fn push_lines(out: &mut String, xs: &[String])
    ensures
        final(out)@ == old(out)@ + lines_text(crate::llty::texts(xs@)),
{
    let mut i: usize = 0;
    while i < xs.len()
        invariant
            i <= xs@.len(),
            out@ == old(out)@ + lines_text(crate::llty::texts(xs@.subrange(0, i as int))),
        decreases xs@.len() - i,
    {
        proof {
            assert(crate::llty::texts(xs@.subrange(0, i + 1)).drop_last() =~= crate::llty::texts(
                xs@.subrange(0, i as int),
            ));
        }
        out.append(xs[i].as_str());
        out.append("\n");
        i = i + 1;
    }
    assert(xs@.subrange(0, i as int) =~= xs@);
}


/// The counter global declaration of a coverable line.
pub open spec fn counter_decl(line: u32) -> Seq<char> {
    "@__osp_cov_hits."@ + decimal(line as nat) + " = internal global i64 0"@
}

/// The lines of `q` not in `seen`, in order.
pub open spec fn unseen(q: Seq<u32>, seen: Set<u32>) -> Seq<u32>
    decreases q.len(),
{
    if q.len() == 0 {
        Seq::empty()
    } else if seen.contains(q.last()) {
        unseen(q.drop_last(), seen)
    } else {
        unseen(q.drop_last(), seen).push(q.last())
    }
}

/// The line a position marks, at least 1.
pub open spec fn hit_line(p: Position) -> u32 {
    if p.line >= 1 {
        p.line
    } else {
        1
    }
}

/// The location id the `k`-th instruction emitted from now on is tagged
/// with.
pub open spec fn location_after(debug: Option<DebugState>, k: nat) -> Option<usize> {
    match location_of(debug) {
        Some(n) => Some((n + k) as usize),
        None => None,
    }
}

/// `d1` is `d0` after allocating the location nodes of `k` instructions.
pub open spec fn located_n(d0: Option<DebugState>, d1: Option<DebugState>, k: nat) -> bool {
    match d0 {
        Some(d) => match (d.scope(), d.position()) {
            (Some(scope), Some(p)) => (d1 matches Some(e) && {
                &&& e.wf()
                &&& e.next() == d.next() + k
                &&& e.nodes() == d.nodes() + Seq::new(
                    k,
                    |i: int|
                        (
                            (d.next() + i) as usize,
                            location_text((d.next() + i) as nat, line_of(p), column_of(p), scope as nat),
                        ),
                )
                &&& e.scope() == d.scope()
                &&& e.position() == d.position()
                &&& e.retained() == d.retained()
                &&& e.locals() == d.locals()
                &&& e.source() == d.source()
                &&& e.dwarf() == d.dwarf()
            }),
            _ => d1 == d0,
        },
        None => d1 == d0,
    }
}

/// Locating `j` instructions, then one more, locates `j + 1`.
pub proof fn lemma_located_step(d0: Option<DebugState>, d1: Option<DebugState>, d2: Option<DebugState>, j: nat)
    requires
        located_n(d0, d1, j),
        located(d1, d2),
    ensures
        located_n(d0, d2, j + 1),
        location_of(d1) == location_after(d0, j),
{
    match d0 {
        Some(d) => match (d.scope(), d.position()) {
            (Some(scope), Some(p)) => {
                let e = d1->0;
                let f = d2->0;
                assert(f.nodes() =~= d.nodes() + Seq::new(
                    j + 1,
                    |i: int|
                        (
                            (d.next() + i) as usize,
                            location_text((d.next() + i) as nat, line_of(p), column_of(p), scope as nat),
                        ),
                ));
            },
            _ => {},
        },
        None => {},
    }
}

/// Locating no instruction changes nothing.
pub proof fn lemma_located_none(d0: Option<DebugState>)
    requires
        d0 matches Some(d) ==> d.wf(),
    ensures
        located_n(d0, d0, 0),
{
    match d0 {
        Some(d) => match (d.scope(), d.position()) {
            (Some(scope), Some(p)) => {
                assert(d.nodes() =~= d.nodes() + Seq::new(
                    0,
                    |i: int|
                        (
                            (d.next() + i) as usize,
                            location_text((d.next() + i) as nat, line_of(p), column_of(p), scope as nat),
                        ),
                ));
            },
            _ => {},
        },
        None => {},
    }
}

/// A well-formed emitter's debug state is well formed.
pub proof fn lemma_wf_debug(c: Codegen)
    requires
        c.wf(),
    ensures
        c.debug() matches Some(d) ==> d.wf(),
{
}

/// The number of the next fresh register of `c`.
pub open spec fn next_reg(c: Codegen) -> nat {
    c.state().regs as nat
}

/// `after` is `before`: nothing emitted.
pub open spec fn unchanged(before: Codegen, after: Codegen) -> bool {
    &&& after.state() == before.state()
    &&& after.debug() == before.debug()
    &&& after.coverage() == before.coverage()
    &&& after.wf() == before.wf()
}

/// The instructions `bodies`, emitted from now on, each tagged with its
/// location.
pub open spec fn located_lines(bodies: Seq<Seq<char>>, d: Option<DebugState>) -> Seq<Seq<char>> {
    Seq::new(bodies.len(), |i: int| instruction(bodies[i], location_after(d, i as nat)))
}

/// `after` is `before` with the instructions `bodies` emitted in order,
/// drawing `regs` fresh registers; what it declares is left to the caller to
/// state.
pub open spec fn emitted(before: Codegen, after: Codegen, bodies: Seq<Seq<char>>, regs: nat) -> bool {
    &&& after.wf()
    &&& after.state() == (Emission {
        externs: after.state().externs,
        regs: (before.state().regs + regs) as usize,
        lines: before.state().lines + located_lines(bodies, before.debug()),
        ..before.state()
    })
    &&& located_n(before.debug(), after.debug(), bodies.len())
    &&& after.coverage() == before.coverage()
}

/// `after` is `before` with nothing declared.
pub open spec fn same_externs(before: Codegen, after: Codegen) -> bool {
    after.state().externs == before.state().externs
}

/// `after` is `before` with `decl` declared.
pub open spec fn declares(before: Codegen, after: Codegen, decl: Seq<char>) -> bool {
    after.state().externs.to_set() == before.state().externs.to_set().insert(decl)
}

/// Locating one instruction locates it at the first location from now.
pub proof fn lemma_located_one(d0: Option<DebugState>, d1: Option<DebugState>)
    requires
        d0 matches Some(d) ==> d.wf(),
        located(d0, d1),
    ensures
        located_n(d0, d1, 1),
        location_of(d0) == location_after(d0, 0),
{
    lemma_located_none(d0);
    lemma_located_step(d0, d0, d1, 0);
}

/// Locating `j` instructions and then `k` more locates `j + k`, the later
/// ones at the locations that follow the first `j`.
pub proof fn lemma_located_concat(
    d0: Option<DebugState>,
    d1: Option<DebugState>,
    d2: Option<DebugState>,
    j: nat,
    k: nat,
)
    requires
        located_n(d0, d1, j),
        located_n(d1, d2, k),
    ensures
        located_n(d0, d2, j + k),
        forall|i: nat| #[trigger] location_after(d1, i) == location_after(d0, j + i),
{
    match d0 {
        Some(d) => match (d.scope(), d.position()) {
            (Some(scope), Some(p)) => {
                let e = d1->0;
                let f = d2->0;
                assert(f.nodes() =~= d.nodes() + Seq::new(
                    j + k,
                    |i: int|
                        (
                            (d.next() + i) as usize,
                            location_text((d.next() + i) as nat, line_of(p), column_of(p), scope as nat),
                        ),
                ));
            },
            _ => {},
        },
        None => {},
    }
}

/// Emitting `b1` and then `b2` emits `b1 + b2`.
pub proof fn lemma_emitted_trans(
    c0: Codegen,
    c1: Codegen,
    c2: Codegen,
    b1: Seq<Seq<char>>,
    k1: nat,
    b2: Seq<Seq<char>>,
    k2: nat,
)
    requires
        c0.state().regs + k1 + k2 <= usize::MAX,
        emitted(c0, c1, b1, k1),
        emitted(c1, c2, b2, k2),
    ensures
        emitted(c0, c2, b1 + b2, k1 + k2),
{
    lemma_located_concat(c0.debug(), c1.debug(), c2.debug(), b1.len(), b2.len());
    let d = c0.debug();
    assert(located_lines(b1 + b2, d) =~= located_lines(b1, d) + located_lines(b2, c1.debug())) by {
        assert forall|i: int| 0 <= i < b2.len() implies #[trigger] located_lines(b2, c1.debug())[i]
            == located_lines(b1 + b2, d)[b1.len() + i] by {
            assert(location_after(c1.debug(), i as nat) == location_after(d, b1.len() + i as nat));
        }
    }
    assert(c2.state().lines =~= c0.state().lines + located_lines(b1 + b2, d));
}

/// Emitting nothing.
pub proof fn lemma_emitted_none(c0: Codegen)
    requires
        c0.wf(),
    ensures
        emitted(c0, c0, Seq::empty(), 0),
{
    lemma_located_none(c0.debug());
    assert(located_lines(Seq::empty(), c0.debug()) =~= Seq::<Seq<char>>::empty());
    assert(c0.state().lines + located_lines(Seq::empty(), c0.debug()) =~= c0.state().lines);
    assert(c0.state() =~= Emission { externs: c0.state().externs, regs: (c0.state().regs + 0) as usize, lines: c0.state().lines + located_lines(Seq::empty(), c0.debug()), ..c0.state() });
}

/// `after` is `before` with the instructions `bodies` emitted in order,
/// drawing `regs` fresh registers, the string constants `gl` defined, and the
/// registers `ro` known to point into them; what it declares is left to the
/// caller to state.
pub open spec fn emitted_with(
    before: Codegen,
    after: Codegen,
    bodies: Seq<Seq<char>>,
    regs: nat,
    gl: Seq<Seq<char>>,
    ro: Set<Seq<char>>,
) -> bool {
    &&& after.wf()
    &&& after.state() == (Emission {
        externs: after.state().externs,
        globals: before.state().globals + gl,
        globs: (before.state().globs + gl.len()) as usize,
        regs: (before.state().regs + regs) as usize,
        lines: before.state().lines + located_lines(bodies, before.debug()),
        rodata: before.state().rodata + ro,
        ..before.state()
    })
    &&& located_n(before.debug(), after.debug(), bodies.len())
    &&& after.coverage() == before.coverage()
}

/// Plain emission defines no constants.
pub proof fn lemma_emitted_with_plain(c0: Codegen, c1: Codegen, b: Seq<Seq<char>>, k: nat)
    requires
        emitted(c0, c1, b, k),
    ensures
        emitted_with(c0, c1, b, k, Seq::empty(), Set::empty()),
{
    assert(c0.state().globals + Seq::<Seq<char>>::empty() =~= c0.state().globals);
    assert(c0.state().rodata + Set::<Seq<char>>::empty() =~= c0.state().rodata);
}

/// Emitting `b1` (defining `g1`) and then `b2` (defining `g2`) emits
/// `b1 + b2`, defining `g1 + g2`.
pub proof fn lemma_emitted_with_trans(
    c0: Codegen,
    c1: Codegen,
    c2: Codegen,
    b1: Seq<Seq<char>>,
    k1: nat,
    g1: Seq<Seq<char>>,
    r1: Set<Seq<char>>,
    b2: Seq<Seq<char>>,
    k2: nat,
    g2: Seq<Seq<char>>,
    r2: Set<Seq<char>>,
)
    requires
        c0.state().regs + k1 + k2 <= usize::MAX,
        c0.state().globs + g1.len() + g2.len() <= usize::MAX,
        emitted_with(c0, c1, b1, k1, g1, r1),
        emitted_with(c1, c2, b2, k2, g2, r2),
    ensures
        emitted_with(c0, c2, b1 + b2, k1 + k2, g1 + g2, r1 + r2),
{
    lemma_located_concat(c0.debug(), c1.debug(), c2.debug(), b1.len(), b2.len());
    let d = c0.debug();
    assert(located_lines(b1 + b2, d) =~= located_lines(b1, d) + located_lines(b2, c1.debug())) by {
        assert forall|i: int| 0 <= i < b2.len() implies #[trigger] located_lines(b2, c1.debug())[i]
            == located_lines(b1 + b2, d)[b1.len() + i] by {
            assert(location_after(c1.debug(), i as nat) == location_after(d, b1.len() + i as nat));
        }
    }
    assert(c2.state().lines =~= c0.state().lines + located_lines(b1 + b2, d));
    assert(c2.state().globals =~= c0.state().globals + (g1 + g2));
    assert(c2.state().rodata =~= c0.state().rodata + (r1 + r2));
}

/// The name of the `k`-th string constant.
pub open spec fn const_name(k: nat) -> Seq<char> {
    "@.str."@ + decimal(k)
}

/// The definition of the `k`-th string constant, holding `text`.
pub open spec fn const_global(k: nat, text: Seq<char>) -> Seq<char> {
    string_global(
        const_name(k),
        escaped_bytes(encode_utf8(text)) + seq!['\\', '0', '0'],
        encode_utf8(text).len() + 1,
    )
}

/// `r = getelementptr` to the first byte of the `k`-th string constant,
/// holding `text`.
pub open spec fn const_gep(r: Seq<char>, k: nat, text: Seq<char>) -> Seq<char> {
    string_gep(r, const_name(k), encode_utf8(text).len() + 1)
}

/// An ASCII text encodes to one byte per character.
pub proof fn lemma_ascii_fits(text: Seq<char>)
    requires
        vstd::utf8::is_ascii_chars(text),
        text.len() < usize::MAX,
    ensures
        encode_utf8(text).len() == text.len(),
{
    vstd::utf8::is_ascii_chars_encode_utf8(text);
}

/// The debug state `d1` has allocated at most `m` nodes since `d0`.
pub open spec fn debug_grows(d0: Option<DebugState>, d1: Option<DebugState>, m: nat) -> bool {
    match (d0, d1) {
        (Some(x), Some(y)) => x.next() <= y.next() <= x.next() + m,
        (None, None) => true,
        _ => false,
    }
}

/// `after` is a well-formed `before` that has drawn at most `m` registers,
/// labels, string constants, spill slots and debug nodes, and kept its
/// current function's entry line.
pub open spec fn grows(before: Codegen, after: Codegen, m: nat) -> bool {
    &&& after.wf()
    &&& before.state().regs <= after.state().regs <= before.state().regs + m
    &&& before.state().labels <= after.state().labels <= before.state().labels + m
    &&& before.state().globs <= after.state().globs <= before.state().globs + m
    &&& before.state().slots <= after.state().slots <= before.state().slots + m
    &&& after.state().lines.len() >= before.state().lines.len()
    &&& debug_grows(before.debug(), after.debug(), m)
    &&& after.coverage() == before.coverage()
}

/// Locating `k` instructions allocates at most `k` nodes.
pub proof fn lemma_located_grows(d0: Option<DebugState>, d1: Option<DebugState>, k: nat)
    requires
        d0 matches Some(d) ==> d.wf(),
        located_n(d0, d1, k),
    ensures
        debug_grows(d0, d1, k),
{
}

/// Plain emission grows by the larger of the registers drawn and the
/// instructions emitted.
pub proof fn lemma_emitted_grows(c0: Codegen, c1: Codegen, b: Seq<Seq<char>>, k: nat, m: nat)
    requires
        c0.wf(),
        c0.state().regs + k <= usize::MAX,
        emitted(c0, c1, b, k),
        k <= m,
        b.len() <= m,
    ensures
        grows(c0, c1, m),
{
    lemma_wf_debug(c0);
}

/// Emission defining constants grows by the larger of the registers drawn,
/// the constants defined and the instructions emitted.
pub proof fn lemma_emitted_with_grows(
    c0: Codegen,
    c1: Codegen,
    b: Seq<Seq<char>>,
    k: nat,
    g: Seq<Seq<char>>,
    r: Set<Seq<char>>,
    m: nat,
)
    requires
        c0.wf(),
        c0.state().regs + k <= usize::MAX,
        c0.state().globs + g.len() <= usize::MAX,
        emitted_with(c0, c1, b, k, g, r),
        k <= m,
        b.len() <= m,
        g.len() <= m,
    ensures
        grows(c0, c1, m),
{
    lemma_wf_debug(c0);
}

/// Growth composes.
pub proof fn lemma_grows_trans(c0: Codegen, c1: Codegen, c2: Codegen, m1: nat, m2: nat)
    requires
        grows(c0, c1, m1),
        grows(c1, c2, m2),
    ensures
        grows(c0, c2, m1 + m2),
{
}

/// Growth allows a larger bound.
pub proof fn lemma_grows_weaken(c0: Codegen, c1: Codegen, m1: nat, m2: nat)
    requires
        grows(c0, c1, m1),
        m1 <= m2,
    ensures
        grows(c0, c1, m2),
{
}

/// A grown emitter keeps the room it had, less what it drew.
pub proof fn lemma_grows_fits(c0: Codegen, c1: Codegen, m: nat, k: nat)
    requires
        grows(c0, c1, m),
        c0.debug_fits(m + k),
    ensures
        c1.debug_fits(k),
{
}

impl Default for Codegen {
    /// A fresh emitter: no debug metadata, no coverage.
    fn default() -> (r: Codegen)
        ensures
            r.wf(),
            r.state() == fresh_emission(r.state().arc),
            r.state().arc.frames() == seq![Seq::<crate::arc::Owner>::empty()],
            r.state().arc.floors() == Seq::<(usize, usize)>::empty(),
            r.debug() is None,
            r.coverage() is None,
    {
        Codegen::new()
    }
}

impl Codegen {
    /// The emitter state.
    pub closed spec fn state(&self) -> Emission {
        Emission {
            externs: self.externs.list(),
            globals: crate::llty::texts(self.globals@),
            funcs: crate::llty::texts(self.funcs@),
            globs: self.glob_count,
            regs: self.reg_count,
            labels: self.label_count,
            lines: crate::llty::texts(self.cur_lines@),
            block: self.cur_block@,
            frames: self.scopes.frames(),
            handlers: self.handler_count,
            lambdas: self.lambda_count,
            slots: self.arc_slot_count,
            arc: self.arc,
            testing_used: self.testing_used,
            to_string_emitted: self.to_string_emitted,
            rodata: self.rodata_regs.set(),
        }
    }

    /// The debug metadata state, under `--debug`.
    pub closed spec fn debug(&self) -> Option<DebugState> {
        self.debug
    }

    /// The coverage state, when instrumenting.
    pub closed spec fn coverage(&self) -> Option<CoverageState> {
        self.coverage
    }

    /// The external declarations are kept sorted and unique, and the debug
    /// state numbers each node once.
    pub closed spec fn wf(&self) -> bool {
        &&& self.externs.wf()
        &&& self.rodata_regs.wf()
        &&& self.debug matches Some(d) ==> d.wf()
    }

    /// Every counter has room for `n` more.
    pub open spec fn fits(&self, n: nat) -> bool {
        let s = self.state();
        &&& s.regs + n <= usize::MAX
        &&& s.labels + n <= usize::MAX
        &&& s.globs + n <= usize::MAX
        &&& s.slots + n <= usize::MAX
        &&& s.handlers + n <= usize::MAX
        &&& s.lambdas + n <= usize::MAX
        &&& self.debug_fits(n)
    }

    /// The debug state has room for `n` more instructions' nodes.
    pub open spec fn debug_fits(&self, n: nat) -> bool {
        match self.debug() {
            Some(d) => d.next() + 2 * n <= usize::MAX,
            None => true,
        }
    }

    /// A fresh emitter: no debug metadata, no coverage.
    pub fn new() -> (r: Codegen)
        ensures
            r.wf(),
            r.state() == fresh_emission(r.state().arc),
            r.state().arc.frames() == seq![Seq::<crate::arc::Owner>::empty()],
            r.state().arc.floors() == Seq::<(usize, usize)>::empty(),
            r.debug() is None,
            r.coverage() is None,
    {
        Codegen::with_options(CodegenOptions::default(), false)
    }

    /// A fresh emitter with explicit options; debug metadata announces the
    /// DWARF version of the host (`host_is_macos` says which host that is).
    pub fn with_options(options: CodegenOptions, host_is_macos: bool) -> (r: Codegen)
        ensures
            r.wf(),
            r.state() == fresh_emission(r.state().arc),
            r.state().arc.frames() == seq![Seq::<crate::arc::Owner>::empty()],
            r.state().arc.floors() == Seq::<(usize, usize)>::empty(),
            match options.debug_source {
                Some(src) => (r.debug() matches Some(d) && fresh_debug(
                    d,
                    src,
                    dwarf_version_for(host_is_macos),
                )),
                None => r.debug() is None,
            },
            options.coverage ==> (r.coverage() matches Some(c) && c.lines() == Set::<u32>::empty()
                && c.inline_fns() == Seq::<(Seq<char>, Position)>::empty()),
            !options.coverage ==> r.coverage() is None,
    {
        let debug = match options.debug_source {
            Some(src) => Some(DebugState::new(src, host_dwarf_version(host_is_macos))),
            None => None,
        };
        let coverage = if options.coverage {
            Some(CoverageState::new())
        } else {
            None
        };
        let r = Codegen {
            externs: NameSet::new(),
            globals: Vec::new(),
            funcs: Vec::new(),
            glob_count: 0,
            reg_count: 0,
            label_count: 0,
            cur_lines: Vec::new(),
            cur_block: owned("entry"),
            scopes: Scopes::new(),
            handler_count: 0,
            lambda_count: 0,
            testing_used: false,
            to_string_emitted: false,
            debug,
            coverage,
            arc: ArcLedger::new(),
            arc_slot_count: 0,
            rodata_regs: NameSet::new(),
        };
        assert(r.state() =~= fresh_emission(r.arc)) by {
            assert(crate::llty::texts(r.globals@) =~= Seq::<Seq<char>>::empty());
            assert(crate::llty::texts(r.funcs@) =~= Seq::<Seq<char>>::empty());
            assert(crate::llty::texts(r.cur_lines@) =~= Seq::<Seq<char>>::empty());
        }
        r
    }

    /// A fresh, module-unique handler-function id.
    pub fn next_handler_id(&mut self) -> (id: usize)
        requires
            old(self).state().handlers < usize::MAX,
        ensures
            id == old(self).state().handlers,
            final(self).state() == (Emission { handlers: (id + 1) as usize, ..old(self).state() }),
            final(self).wf() == old(self).wf(),
            final(self).debug() == old(self).debug(),
            final(self).coverage() == old(self).coverage(),
    {
        let id = self.handler_count;
        self.handler_count = self.handler_count + 1;
        id
    }

    /// A fresh, module-unique id for a lifted lambda's function name.
    pub fn next_lambda_id(&mut self) -> (id: usize)
        requires
            old(self).state().lambdas < usize::MAX,
        ensures
            id == old(self).state().lambdas,
            final(self).state() == (Emission { lambdas: (id + 1) as usize, ..old(self).state() }),
            final(self).wf() == old(self).wf(),
            final(self).debug() == old(self).debug(),
            final(self).coverage() == old(self).coverage(),
    {
        let id = self.lambda_count;
        self.lambda_count = self.lambda_count + 1;
        id
    }

    /// Append a module-level global definition.
    pub fn add_global(&mut self, def: &str)
        ensures
            final(self).state() == (Emission {
                globals: old(self).state().globals.push(def@),
                ..old(self).state()
            }),
            final(self).wf() == old(self).wf(),
            final(self).debug() == old(self).debug(),
            final(self).coverage() == old(self).coverage(),
    {
        self.globals.push(owned(def));
        assert(self.state() =~= Emission {
            globals: old(self).state().globals.push(def@),
            ..old(self).state()
        }) by {
            assert(crate::llty::texts(self.globals@) =~= crate::llty::texts(old(self).globals@).push(def@));
        }
    }

    /// Declare an external, once.
    pub fn add_extern(&mut self, decl: &str)
        requires
            old(self).wf(),
        ensures
            final(self).wf(),
            final(self).state().externs.to_set() == old(self).state().externs.to_set().insert(decl@),
            final(self).state() == (Emission {
                externs: final(self).state().externs,
                ..old(self).state()
            }),
            final(self).debug() == old(self).debug(),
            final(self).coverage() == old(self).coverage(),
    {
        self.externs.insert(decl);
    }

    /// A fresh SSA register of the current function.
    pub fn fresh_reg(&mut self) -> (r: String)
        requires
            old(self).state().regs < usize::MAX,
        ensures
            r@ == register(old(self).state().regs as nat),
            final(self).state() == (Emission {
                regs: (old(self).state().regs + 1) as usize,
                ..old(self).state()
            }),
            final(self).wf() == old(self).wf(),
            final(self).debug() == old(self).debug(),
            final(self).coverage() == old(self).coverage(),
    {
        let mut r = owned("%r");
        push_decimal(&mut r, self.reg_count as u64);
        self.reg_count = self.reg_count + 1;
        r
    }

    /// A fresh label of the current function.
    pub fn fresh_label(&mut self) -> (r: String)
        requires
            old(self).state().labels < usize::MAX,
        ensures
            r@ == label(old(self).state().labels as nat),
            final(self).state() == (Emission {
                labels: (old(self).state().labels + 1) as usize,
                ..old(self).state()
            }),
            final(self).wf() == old(self).wf(),
            final(self).debug() == old(self).debug(),
            final(self).coverage() == old(self).coverage(),
    {
        let mut r = owned("L");
        push_decimal(&mut r, self.label_count as u64);
        self.label_count = self.label_count + 1;
        r
    }

    /// The ownership ledger of the current function.
    pub fn ledger(&self) -> (r: &ArcLedger)
        ensures
            *r == self.state().arc,
    {
        &self.arc
    }

    /// The ownership ledger of the current function, to update.
    pub fn ledger_mut(&mut self) -> (r: &mut ArcLedger)
        ensures
            *r == old(self).state().arc,
            final(self).state() == (Emission { arc: *final(r), ..old(self).state() }),
            final(self).wf() == old(self).wf(),
            final(self).debug() == old(self).debug(),
            final(self).coverage() == old(self).coverage(),
    {
        &mut self.arc
    }

    /// Whether any testing built-in was lowered.
    pub fn testing_used(&self) -> (r: bool)
        ensures
            r == self.state().testing_used,
    {
        self.testing_used
    }

    /// Record that a testing built-in was lowered.
    /// Whether the erased-value renderer has been emitted.
    pub fn to_string_emitted(&self) -> (r: bool)
        ensures
            r == self.state().to_string_emitted,
    {
        self.to_string_emitted
    }

    /// Record that the erased-value renderer has been emitted.
    pub fn mark_to_string_emitted(&mut self)
        ensures
            final(self).state() == (Emission { to_string_emitted: true, ..old(self).state() }),
            final(self).wf() == old(self).wf(),
            final(self).debug() == old(self).debug(),
            final(self).coverage() == old(self).coverage(),
    {
        self.to_string_emitted = true;
    }

    pub fn mark_testing_used(&mut self)
        ensures
            final(self).state() == (Emission { testing_used: true, ..old(self).state() }),
            final(self).wf() == old(self).wf(),
            final(self).debug() == old(self).debug(),
            final(self).coverage() == old(self).coverage(),
    {
        self.testing_used = true;
    }

    /// The current basic block's label.
    pub fn cur_block(&self) -> (r: &str)
        ensures
            r@ == self.state().block,
    {
        self.cur_block.as_str()
    }

    /// Emit one instruction of the current function, tagged with its source
    /// location under debug.
    pub fn emit(&mut self, line: &str)
        requires
            old(self).wf(),
            old(self).debug_fits(1),
        ensures
            final(self).wf(),
            final(self).state() == (Emission {
                lines: old(self).state().lines.push(
                    instruction(line@, location_of(old(self).debug())),
                ),
                ..old(self).state()
            }),
            located(old(self).debug(), final(self).debug()),
            final(self).coverage() == old(self).coverage(),
            emitted(*old(self), *final(self), seq![line@], 0),
    {
        let (loc, debug) = match self.debug.take() {
            Some(mut d) => {
                let l = d.location_id();
                (l, Some(d))
            },
            None => (None, None),
        };
        self.debug = debug;
        let mut text = owned("  ");
        text.append(line);
        match loc {
            Some(id) => {
                text.append(", !dbg !");
                push_decimal(&mut text, id as u64);
            },
            None => {},
        }
        assert(text@ =~= instruction(line@, location_of(old(self).debug())));
        self.cur_lines.push(text);
        assert(self.state() =~= Emission {
            lines: old(self).state().lines.push(instruction(line@, location_of(old(self).debug()))),
            ..old(self).state()
        }) by {
            assert(crate::llty::texts(self.cur_lines@) =~= old(self).state().lines.push(
                instruction(line@, location_of(old(self).debug())),
            ));
        }
        proof {
            lemma_located_one(old(self).debug(), self.debug);
            assert(located_lines(seq![line@], old(self).debug()) =~= seq![
                instruction(line@, location_of(old(self).debug())),
            ]);
            assert(old(self).state().lines.push(instruction(line@, location_of(old(self).debug())))
                =~= old(self).state().lines + located_lines(seq![line@], old(self).debug()));
        }
    }

    /// Emit `r = rhs` to a fresh SSA register and answer `r`.
    pub fn emit_reg(&mut self, rhs: &str) -> (r: String)
        requires
            old(self).wf(),
            old(self).state().regs < usize::MAX,
            old(self).debug_fits(1),
        ensures
            final(self).wf(),
            r@ == register(old(self).state().regs as nat),
            final(self).state() == (Emission {
                regs: (old(self).state().regs + 1) as usize,
                lines: old(self).state().lines.push(
                    instruction(r@ + " = "@ + rhs@, location_of(old(self).debug())),
                ),
                ..old(self).state()
            }),
            located(old(self).debug(), final(self).debug()),
            final(self).coverage() == old(self).coverage(),
            emitted(*old(self), *final(self), seq![r@ + " = "@ + rhs@], 1),
    {
        let r = self.fresh_reg();
        let mut line = r.clone();
        line.append(" = ");
        line.append(rhs);
        self.emit(line.as_str());
        r
    }

    /// Start a new basic block and make it current.
    pub fn start_block(&mut self, label: &str)
        ensures
            final(self).state() == (Emission {
                lines: old(self).state().lines.push(label@ + ":"@),
                block: label@,
                ..old(self).state()
            }),
            final(self).wf() == old(self).wf(),
            final(self).debug() == old(self).debug(),
            final(self).coverage() == old(self).coverage(),
    {
        let mut text = owned(label);
        text.append(":");
        self.cur_lines.push(text);
        self.cur_block = owned(label);
        assert(crate::llty::texts(self.cur_lines@) =~= old(self).state().lines.push(label@ + ":"@));
        assert(self.state() =~= Emission {
            lines: old(self).state().lines.push(label@ + ":"@),
            block: label@,
            ..old(self).state()
        });
    }

    /// Branch to `end`, answering the block it branches from: the
    /// predecessor a `phi` at `end` reads back.
    pub fn snapshot_to(&mut self, end: &str) -> (r: String)
        requires
            old(self).wf(),
            old(self).debug_fits(1),
        ensures
            final(self).wf(),
            r@ == old(self).state().block,
            final(self).state() == (Emission {
                lines: old(self).state().lines.push(
                    instruction("br label %"@ + end@, location_of(old(self).debug())),
                ),
                ..old(self).state()
            }),
            located(old(self).debug(), final(self).debug()),
            final(self).coverage() == old(self).coverage(),
    {
        let block = self.cur_block.clone();
        let mut line = owned("br label %");
        line.append(end);
        self.emit(line.as_str());
        block
    }

    /// Append a module-level global definition (a table, a counter).
    pub fn add_global_def(&mut self, def: &str)
        ensures
            final(self).state() == (Emission {
                globals: old(self).state().globals.push(def@),
                ..old(self).state()
            }),
            final(self).wf() == old(self).wf(),
            final(self).debug() == old(self).debug(),
            final(self).coverage() == old(self).coverage(),
    {
        self.add_global(def);
    }

    /// Open a fresh innermost lexical scope.
    pub fn push_scope(&mut self)
        ensures
            final(self).state() == (Emission {
                frames: old(self).state().frames.push(Seq::empty()),
                ..old(self).state()
            }),
            final(self).wf() == old(self).wf(),
            final(self).debug() == old(self).debug(),
            final(self).coverage() == old(self).coverage(),
    {
        self.scopes.push_scope();
    }

    /// Close the innermost lexical scope; nothing with none open.
    pub fn pop_scope(&mut self)
        ensures
            final(self).state() == (Emission {
                frames: if old(self).state().frames.len() > 0 {
                    old(self).state().frames.drop_last()
                } else {
                    old(self).state().frames
                },
                ..old(self).state()
            }),
            final(self).wf() == old(self).wf(),
            final(self).debug() == old(self).debug(),
            final(self).coverage() == old(self).coverage(),
    {
        self.scopes.pop_scope();
    }

    /// Bind `name` to `value` in the innermost scope; nothing with none open.
    pub fn bind(&mut self, name: &str, value: Value)
        ensures
            final(self).state() == (Emission {
                frames: if old(self).state().frames.len() > 0 {
                    old(self).state().frames.update(
                        old(self).state().frames.len() - 1,
                        old(self).state().frames.last().push((name@, value)),
                    )
                } else {
                    old(self).state().frames
                },
                ..old(self).state()
            }),
            final(self).wf() == old(self).wf(),
            final(self).debug() == old(self).debug(),
            final(self).coverage() == old(self).coverage(),
    {
        self.scopes.bind(name, value);
    }

    /// What `name` resolves to: its binding in the innermost scope that has
    /// one.
    pub fn lookup(&self, name: &str) -> (r: Option<Value>)
        ensures
            r == resolve(self.state().frames, name@),
    {
        self.scopes.lookup(name)
    }

    /// Hoist a null-initialised `i8*` spill slot into the entry block (right
    /// after its label) and answer its register, `%arc.s<n>`.
    pub fn hoist_arc_slot(&mut self) -> (r: String)
        requires
            old(self).state().lines.len() >= 1,
            old(self).state().slots < usize::MAX,
        ensures
            r@ == "%arc.s"@ + decimal(old(self).state().slots as nat),
            final(self).state() == (Emission {
                slots: (old(self).state().slots + 1) as usize,
                lines: old(self).state().lines.insert(1, "  "@ + r@ + " = alloca i8*"@).insert(
                    2,
                    "  store i8* null, i8** "@ + r@,
                ),
                ..old(self).state()
            }),
            final(self).wf() == old(self).wf(),
            final(self).debug() == old(self).debug(),
            final(self).coverage() == old(self).coverage(),
    {
        let mut name = owned("%arc.s");
        push_decimal(&mut name, self.arc_slot_count as u64);
        self.arc_slot_count = self.arc_slot_count + 1;
        let mut alloca = owned("  ");
        alloca.append(name.as_str());
        alloca.append(" = alloca i8*");
        let mut store = owned("  store i8* null, i8** ");
        store.append(name.as_str());
        let ghost l0 = self.cur_lines@;
        let ghost av = alloca@;
        let ghost sv = store@;
        self.cur_lines.insert(1, alloca);
        self.cur_lines.insert(2, store);
        assert(crate::llty::texts(self.cur_lines@) =~= crate::llty::texts(l0).insert(1, av).insert(2, sv));
        assert(self.state() =~= Emission {
            slots: (old(self).state().slots + 1) as usize,
            lines: old(self).state().lines.insert(1, av).insert(2, sv),
            ..old(self).state()
        });
        name
    }

    /// Move the debug position to `position` when there is one, answering the
    /// previous position; none without debug metadata.
    pub fn set_debug_position(&mut self, position: Option<Position>) -> (previous: Option<Position>)
        requires
            old(self).wf(),
        ensures
            final(self).wf(),
            final(self).state() == old(self).state(),
            final(self).coverage() == old(self).coverage(),
            match old(self).debug() {
                Some(d) => previous == d.position() && (final(self).debug() matches Some(e) && {
                    &&& e.position() == (if position is Some {
                        position
                    } else {
                        d.position()
                    })
                    &&& e.nodes() == d.nodes()
                    &&& e.next() == d.next()
                    &&& e.scope() == d.scope()
                    &&& e.retained() == d.retained()
                    &&& e.locals() == d.locals()
                    &&& e.source() == d.source()
                    &&& e.dwarf() == d.dwarf()
                }),
                None => previous is None && final(self).debug() is None,
            },
    {
        let (previous, debug) = match self.debug.take() {
            Some(mut d) => {
                let p = d.set_position(position);
                (p, Some(d))
            },
            None => (None, None),
        };
        self.debug = debug;
        previous
    }

    /// Put the debug position back to `previous`, as answered by
    /// [`Codegen::set_debug_position`].
    pub fn restore_debug_position(&mut self, previous: Option<Position>)
        requires
            old(self).wf(),
        ensures
            final(self).wf(),
            final(self).state() == old(self).state(),
            final(self).coverage() == old(self).coverage(),
            match old(self).debug() {
                Some(d) => final(self).debug() matches Some(e) && {
                    &&& e.position() == previous
                    &&& e.nodes() == d.nodes()
                    &&& e.next() == d.next()
                    &&& e.scope() == d.scope()
                    &&& e.retained() == d.retained()
                    &&& e.locals() == d.locals()
                    &&& e.source() == d.source()
                    &&& e.dwarf() == d.dwarf()
                },
                None => final(self).debug() is None,
            },
    {
        let debug = match self.debug.take() {
            Some(mut d) => {
                d.restore_position(previous);
                Some(d)
            },
            None => None,
        };
        self.debug = debug;
    }

    /// Intern a string literal as a private global and answer an `i8*` to its
    /// first byte.
    pub fn string_constant(&mut self, text: &str) -> (r: Value)
        requires
            old(self).wf(),
            old(self).state().regs < usize::MAX,
            old(self).state().globs < usize::MAX,
            old(self).debug_fits(1),
            encode_utf8(text@).len() < usize::MAX,
        ensures
            final(self).wf(),
            r.operand@ == register(old(self).state().regs as nat),
            r.ty == LType::Str,
            r.is_plain(),
            ({
                let name = "@.str."@ + decimal(old(self).state().globs as nat);
                let len = encode_utf8(text@).len() + 1;
                let escaped = escaped_bytes(encode_utf8(text@)) + seq!['\\', '0', '0'];
                final(self).state() == (Emission {
                    globs: (old(self).state().globs + 1) as usize,
                    globals: old(self).state().globals.push(string_global(name, escaped, len)),
                    regs: (old(self).state().regs + 1) as usize,
                    lines: old(self).state().lines.push(
                        instruction(
                            string_gep(r.operand@, name, len),
                            location_of(old(self).debug()),
                        ),
                    ),
                    rodata: old(self).state().rodata.insert(r.operand@),
                    ..old(self).state()
                })
            }),
            located(old(self).debug(), final(self).debug()),
            final(self).coverage() == old(self).coverage(),
            same_externs(*old(self), *final(self)),
            emitted_with(
                *old(self),
                *final(self),
                seq![const_gep(r.operand@, old(self).state().globs as nat, text@)],
                1,
                seq![const_global(old(self).state().globs as nat, text@)],
                set![r.operand@],
            ),
    {
        let (escaped, len) = escape_c_string(text);
        let mut name = owned("@.str.");
        push_decimal(&mut name, self.glob_count as u64);
        self.glob_count = self.glob_count + 1;
        let mut global = name.clone();
        global.append(" = private unnamed_addr constant [");
        push_decimal(&mut global, len as u64);
        global.append(" x i8] c\"");
        global.append(escaped.as_str());
        global.append("\"");
        self.globals.push(global);
        let reg = self.fresh_reg();
        let mut gep = reg.clone();
        gep.append(" = getelementptr [");
        push_decimal(&mut gep, len as u64);
        gep.append(" x i8], [");
        push_decimal(&mut gep, len as u64);
        gep.append(" x i8]* ");
        gep.append(name.as_str());
        gep.append(", i64 0, i64 0");
        self.emit(gep.as_str());
        assert(crate::llty::texts(self.globals@) =~= old(self).state().globals.push(
            string_global(name@, escaped@, len as nat),
        ));
        self.rodata_regs.insert(reg.as_str());
        proof {
            lemma_located_one(old(self).debug(), self.debug);
            assert(located_lines(seq![const_gep(reg@, old(self).state().globs as nat, text@)], old(self).debug()) =~= seq![
                instruction(gep@, location_of(old(self).debug())),
            ]);
            assert(self.state().globals =~= old(self).state().globals + seq![
                const_global(old(self).state().globs as nat, text@),
            ]);
            assert(self.state().rodata =~= old(self).state().rodata + set![reg@]);
        }
        Value::new(reg.as_str(), LType::Str)
    }

    /// Whether `operand` is a register of the current function that points
    /// into a private constant.
    pub fn is_rodata(&self, operand: &str) -> (r: bool)
        requires
            self.wf(),
        ensures
            r == self.state().rodata.contains(operand@),
    {
        self.rodata_regs.contains(operand)
    }

    /// Allocate `size` bytes through the swappable allocation hook and answer
    /// the raw `i8*` register.
    pub fn heap_alloc(&mut self, size: &str) -> (r: String)
        requires
            old(self).wf(),
            old(self).state().regs < usize::MAX,
            old(self).debug_fits(1),
        ensures
            final(self).wf(),
            r@ == register(old(self).state().regs as nat),
            final(self).state().externs.to_set() == old(self).state().externs.to_set().insert(
                OSP_ALLOC_DECL@,
            ),
            final(self).state() == (Emission {
                externs: final(self).state().externs,
                regs: (old(self).state().regs + 1) as usize,
                lines: old(self).state().lines.push(
                    instruction(r@ + " = "@ + alloc_rhs(size@, KIND_RAW), location_of(old(self).debug())),
                ),
                ..old(self).state()
            }),
            located(old(self).debug(), final(self).debug()),
            final(self).coverage() == old(self).coverage(),
            emitted(*old(self), *final(self), seq![r@ + " = "@ + alloc_rhs(size@, KIND_RAW)], 1),
    {
        self.add_extern(OSP_ALLOC_DECL);
        let mut rhs = owned("call i8* @osp_alloc(i64 ");
        rhs.append(size);
        rhs.append(")");
        self.emit_reg(rhs.as_str())
    }

    /// [`Codegen::heap_alloc`] carrying the site's layout word `meta`; a raw
    /// layout takes the plain hook.
    pub fn heap_alloc_tagged(&mut self, size: &str, meta: i64) -> (r: String)
        requires
            old(self).wf(),
            old(self).state().regs < usize::MAX,
            old(self).debug_fits(1),
        ensures
            final(self).wf(),
            r@ == register(old(self).state().regs as nat),
            final(self).state().externs.to_set() == old(self).state().externs.to_set().insert(
                alloc_decl(meta),
            ),
            final(self).state() == (Emission {
                externs: final(self).state().externs,
                regs: (old(self).state().regs + 1) as usize,
                lines: old(self).state().lines.push(
                    instruction(r@ + " = "@ + alloc_rhs(size@, meta), location_of(old(self).debug())),
                ),
                ..old(self).state()
            }),
            located(old(self).debug(), final(self).debug()),
            final(self).coverage() == old(self).coverage(),
    {
        if meta == KIND_RAW {
            return self.heap_alloc(size);
        }
        self.add_extern(OSP_ALLOC_TAGGED_DECL);
        let mut rhs = owned("call i8* @osp_alloc_tagged(i64 ");
        rhs.append(size);
        rhs.append(", i64 ");
        push_signed(&mut rhs, meta);
        rhs.append(")");
        self.emit_reg(rhs.as_str())
    }

    /// Allocate a heap block sized for the struct type `struct_ty` (by the
    /// `getelementptr null, 1` sizeof idiom) with layout word `meta`, and
    /// answer the typed pointer register.
    pub fn malloc_struct(&mut self, struct_ty: &str, meta: i64) -> (r: String)
        requires
            old(self).wf(),
            old(self).state().regs + 4 <= usize::MAX,
            old(self).debug_fits(4),
        ensures
            final(self).wf(),
            ({
                let n = old(self).state().regs as nat;
                let t = struct_ty@;
                let d = old(self).debug();
                &&& r@ == register(n + 3)
                &&& final(self).state().externs.to_set() == old(self).state().externs.to_set().insert(
                    alloc_decl(meta),
                )
                &&& final(self).state() == (Emission {
                    externs: final(self).state().externs,
                    regs: (n + 4) as usize,
                    lines: old(self).state().lines + seq![
                        instruction(
                            register(n) + " = getelementptr "@ + t + ", "@ + t + "* null, i64 1"@,
                            location_after(d, 0),
                        ),
                        instruction(
                            register(n + 1) + " = ptrtoint "@ + t + "* "@ + register(n) + " to i64"@,
                            location_after(d, 1),
                        ),
                        instruction(
                            register(n + 2) + " = "@ + alloc_rhs(register(n + 1), meta),
                            location_after(d, 2),
                        ),
                        instruction(
                            register(n + 3) + " = bitcast i8* "@ + register(n + 2) + " to "@ + t + "*"@,
                            location_after(d, 3),
                        ),
                    ],
                    ..old(self).state()
                })
                &&& located_n(d, final(self).debug(), 4)
            }),
            final(self).coverage() == old(self).coverage(),
    {
        let ghost d0 = self.debug;
        let ghost n = self.state().regs as nat;
        let ghost lines0 = self.state().lines;
        let ghost t = struct_ty@;
        proof {
            lemma_located_none(d0);
        }
        let szp = self.fresh_reg();
        let mut l1 = szp.clone();
        l1.append(" = getelementptr ");
        l1.append(struct_ty);
        l1.append(", ");
        l1.append(struct_ty);
        l1.append("* null, i64 1");
        assert(l1@ =~= register(n) + " = getelementptr "@ + t + ", "@ + t + "* null, i64 1"@);
        let ghost da = self.debug;
        self.emit(l1.as_str());
        proof {
            lemma_located_step(d0, da, self.debug, 0);
        }
        let ghost first = instruction(
            register(n) + " = getelementptr "@ + t + ", "@ + t + "* null, i64 1"@,
            location_after(d0, 0),
        );
        assert(self.state().lines == lines0.push(first));
        let sz = self.fresh_reg();
        let mut l2 = sz.clone();
        l2.append(" = ptrtoint ");
        l2.append(struct_ty);
        l2.append("* ");
        l2.append(szp.as_str());
        l2.append(" to i64");
        assert(l2@ =~= register(n + 1) + " = ptrtoint "@ + t + "* "@ + register(n) + " to i64"@);
        let ghost db = self.debug;
        self.emit(l2.as_str());
        proof {
            lemma_located_step(d0, db, self.debug, 1);
        }
        let ghost second = instruction(
            register(n + 1) + " = ptrtoint "@ + t + "* "@ + register(n) + " to i64"@,
            location_after(d0, 1),
        );
        assert(self.state().lines == lines0.push(first).push(second));
        let ghost dc = self.debug;
        let raw = self.heap_alloc_tagged(sz.as_str(), meta);
        proof {
            lemma_located_step(d0, dc, self.debug, 2);
        }
        let ghost third = instruction(
            register(n + 2) + " = "@ + alloc_rhs(register(n + 1), meta),
            location_after(d0, 2),
        );
        assert(self.state().lines == lines0.push(first).push(second).push(third));
        let obj = self.fresh_reg();
        let mut l4 = obj.clone();
        l4.append(" = bitcast i8* ");
        l4.append(raw.as_str());
        l4.append(" to ");
        l4.append(struct_ty);
        l4.append("*");
        assert(l4@ =~= register(n + 3) + " = bitcast i8* "@ + register(n + 2) + " to "@ + t + "*"@);
        let ghost dd = self.debug;
        self.emit(l4.as_str());
        proof {
            lemma_located_step(d0, dd, self.debug, 3);
        }
        let ghost fourth = instruction(
            register(n + 3) + " = bitcast i8* "@ + register(n + 2) + " to "@ + t + "*"@,
            location_after(d0, 3),
        );
        assert(self.state().lines == lines0.push(first).push(second).push(third).push(fourth));
        assert(lines0.push(first).push(second).push(third).push(fourth) =~= lines0 + seq![
            first,
            second,
            third,
            fourth,
        ]);
        obj
    }

    /// Reset the per-function state and open the function: counters at
    /// zero, a fresh ledger, an `entry` block, an outermost scope, and under
    /// debug its subprogram.
    pub fn begin_function(&mut self, name: &str, position: Option<Position>)
        requires
            old(self).wf(),
            old(self).debug_fits(1),
        ensures
            final(self).wf(),
            final(self).state() == (Emission {
                regs: 0,
                labels: 0,
                lines: seq!["entry:"@],
                block: "entry"@,
                frames: old(self).state().frames.push(Seq::empty()),
                slots: 0,
                arc: final(self).state().arc,
                rodata: Set::empty(),
                ..old(self).state()
            }),
            final(self).state().arc.frames() == seq![Seq::<crate::arc::Owner>::empty()],
            final(self).state().arc.floors() == Seq::<(usize, usize)>::empty(),
            match old(self).debug() {
                Some(d) => (final(self).debug() matches Some(e) && opened(d, e, name@, position)),
                None => final(self).debug() is None,
            },
            final(self).coverage() == old(self).coverage(),
    {
        self.reg_count = 0;
        self.label_count = 0;
        self.cur_lines = Vec::new();
        self.cur_block = owned("entry");
        self.arc = ArcLedger::new();
        self.arc_slot_count = 0;
        self.rodata_regs = NameSet::new();
        self.scopes.push_scope();
        self.cur_lines.push(owned("entry:"));
        let debug = match self.debug.take() {
            Some(mut d) => {
                let _ = d.begin_function(name, position);
                Some(d)
            },
            None => None,
        };
        self.debug = debug;
        assert(crate::llty::texts(self.cur_lines@) =~= seq!["entry:"@]);
    }

    /// Close the function being emitted: append its `define` block (its
    /// lines joined, tagged with its subprogram under debug) to the module,
    /// clear its lines, close its outermost scope, and under debug define its
    /// retained nodes and leave it.
    pub fn finish_function(&mut self, ret: &str, name: &str, params: &[(LType, String)])
        requires
            old(self).wf(),
        ensures
            final(self).wf(),
            final(self).state() == (Emission {
                funcs: old(self).state().funcs.push(
                    define_text(
                        ret@,
                        name@,
                        param_texts(params@),
                        define_dbg(old(self).debug()),
                        old(self).state().lines,
                    ),
                ),
                lines: Seq::empty(),
                frames: if old(self).state().frames.len() > 0 {
                    old(self).state().frames.drop_last()
                } else {
                    old(self).state().frames
                },
                ..old(self).state()
            }),
            match old(self).debug() {
                Some(d) => (final(self).debug() matches Some(e) && closed_fn(d, e)),
                None => final(self).debug() is None,
            },
            final(self).coverage() == old(self).coverage(),
    {
        let mut parts: Vec<String> = Vec::new();
        let mut i: usize = 0;
        while i < params.len()
            invariant
                i <= params@.len(),
                crate::llty::texts(parts@) == param_texts(params@.subrange(0, i as int)),
            decreases params@.len() - i,
        {
            let mut p = owned(params[i].0.as_str());
            p.append(" %");
            p.append(params[i].1.as_str());
            let ghost p0 = parts@;
            let ghost pv = p@;
            parts.push(p);
            proof {
                assert(crate::llty::texts(parts@) =~= crate::llty::texts(p0).push(pv));
                assert(param_texts(params@.subrange(0, i + 1)) =~= param_texts(
                    params@.subrange(0, i as int),
                ).push(params@[i as int].0.spelling() + " %"@ + params@[i as int].1@));
            }
            i = i + 1;
        }
        assert(params@.subrange(0, i as int) =~= params@);
        let param_list = crate::llty::join(parts.as_slice(), ", ");
        let body = crate::llty::join(self.cur_lines.as_slice(), "\n");
        let mut text = owned("define ");
        text.append(ret);
        text.append(" @");
        text.append(name);
        text.append("(");
        text.append(param_list.as_str());
        text.append(") #0");
        match &self.debug {
            Some(d) => match d.current_scope() {
                Some(id) => {
                    text.append(" !dbg !");
                    push_decimal(&mut text, id as u64);
                },
                None => {},
            },
            None => {},
        }
        text.append(" {\n");
        text.append(body.as_str());
        text.append("\n}");
        assert(text@ =~= define_text(
            ret@,
            name@,
            param_texts(params@),
            define_dbg(old(self).debug()),
            old(self).state().lines,
        ));
        let ghost f0 = self.funcs@;
        let ghost tv = text@;
        self.funcs.push(text);
        assert(crate::llty::texts(self.funcs@) =~= crate::llty::texts(f0).push(tv));
        self.cur_lines = Vec::new();
        assert(crate::llty::texts(self.cur_lines@) =~= Seq::<Seq<char>>::empty());
        self.scopes.pop_scope();
        let debug = match self.debug.take() {
            Some(mut d) => {
                d.finish_function();
                d.clear_function();
                Some(d)
            },
            None => None,
        };
        self.debug = debug;
    }

    /// Append the external declarations, the globals and the functions.
    fn render_sections(&self, out: &mut String)
        ensures
            final(out)@ == old(out)@ + sections_text(self.state()),
    {
        push_lines(out, self.externs.as_slice());
        out.append("\n");
        push_lines(out, self.globals.as_slice());
        out.append("\n");
        let funcs = crate::llty::join(self.funcs.as_slice(), "\n\n");
        out.append(funcs.as_str());
        out.append("\n");
    }

    /// Append the named metadata lists and every metadata definition, under
    /// debug.
    fn render_metadata(&self, out: &mut String)
        ensures
            final(out)@ == old(out)@ + metadata_text(self.debug()),
    {
        match &self.debug {
            Some(d) => {
                out.append("\n");
                let cu = d.compile_units();
                out.append(cu.as_str());
                out.append("\n");
                let flags = d.module_flags();
                out.append(flags.as_str());
                out.append("\n");
                let ident = d.ident();
                out.append(ident.as_str());
                out.append("\n");
                let lines = d.metadata_lines();
                push_lines(out, lines.as_slice());
            },
            None => {},
        }
    }

    /// The whole module text: header, source file name under debug,
    /// external declarations, globals, functions, the coverage registration
    /// function when instrumenting, the function attributes, and the debug
    /// metadata.
    pub fn render(&self) -> (r: String)
        ensures
            r@ == module_text(self.state(), self.debug(), self.coverage()),
    {
        let mut out = owned("; Generated by osprey-rs (Rust LLVM-text backend)\n\n");
        match &self.debug {
            Some(d) => {
                out.append("source_filename = \"");
                let file = d.source_filename();
                out.append(file.as_str());
                out.append("\"\n\n");
            },
            None => {},
        }
        self.render_sections(&mut out);
        match self.cov_render_init() {
            Some(init) => {
                out.append("\n");
                out.append(init.as_str());
                out.append("\n");
            },
            None => {},
        }
        out.append(FRAME_POINTER_ATTRS);
        out.append("\n");
        self.render_metadata(&mut out);
        out
    }

    /// Seed the coverable lines from the whole program and declare the
    /// counter of each line not seen before, in ascending line order, so a
    /// line no code reaches still reports zero hits; nothing unless
    /// instrumenting.
    pub fn cov_seed(&mut self, program: &Program)
        ensures
            final(self).wf() == old(self).wf(),
            final(self).debug() == old(self).debug(),
            match old(self).coverage() {
                Some(c) => {
                    let fresh = unseen(sorted_lines(stmts_lines(program.statements@)), c.lines());
                    &&& final(self).coverage() matches Some(c2)
                    &&& c2.lines() == c.lines() + stmts_lines(program.statements@)
                    &&& c2.inline_fns() == c.inline_fns()
                    &&& final(self).state() == (Emission {
                        globals: old(self).state().globals + fresh.map_values(|l: u32| counter_decl(l)),
                        ..old(self).state()
                    })
                },
                None => final(self).coverage() is None && final(self).state() == old(self).state(),
            },
    {
        if self.coverage.is_none() {
            return;
        }
        let lines = coverable_lines(program);
        proof {
            lemma_walk_ascending(&lines);
        }
        let ghost q = spec_btree_keys_iter(&lines).remaining().unref();
        let ghost c0 = old(self).coverage->0;
        let ghost s0 = old(self).state();
        for line in it: lines.iter()
            invariant
                it.seq().unref() == q,
                q == sorted_lines(lines@),
                ascending(q),
                self.coverage matches Some(c) && c.lines() == c0.lines() + q.take(it.index()).to_set()
                    && c.inline_fns() == c0.inline_fns(),
                self.state() == (Emission {
                    globals: s0.globals + unseen(q.take(it.index()), c0.lines()).map_values(
                        |l: u32| counter_decl(l),
                    ),
                    ..s0
                }),
                self.wf() == old(self).wf(),
                self.debug() == old(self).debug(),
        {
            let ghost k = it.index();
            assert(*line == q[k]);
            assert(q.take(k + 1) =~= q.take(k).push(q[k]));
            assert(q.take(k + 1).drop_last() =~= q.take(k));
            assert(!q.take(k).to_set().contains(q[k])) by {
                if q.take(k).to_set().contains(q[k]) {
                    let j = choose|j: int| 0 <= j < q.take(k).len() && q.take(k)[j] == q[k];
                    assert(q[j] < q[k]);
                }
            }
            let ghost g0 = unseen(q.take(k), c0.lines()).map_values(|l: u32| counter_decl(l));
            match self.coverage.take() {
                Some(mut cov) => {
                    let first_sight = cov.insert_line(*line);
                    self.coverage = Some(cov);
                    if first_sight {
                        let mut decl = crate::coverage::counter_global(*line);
                        decl.append(" = internal global i64 0");
                        self.add_global(decl.as_str());
                        assert(unseen(q.take(k + 1), c0.lines()).map_values(|l: u32| counter_decl(l))
                            =~= g0.push(counter_decl(q[k])));
                        assert(s0.globals + g0.push(counter_decl(q[k])) =~= (s0.globals + g0).push(
                            counter_decl(q[k]),
                        ));
                    } else {
                        assert(unseen(q.take(k + 1), c0.lines()).map_values(|l: u32| counter_decl(l))
                            =~= g0);
                    }
                    assert(c0.lines() + q.take(k + 1).to_set() =~= (c0.lines() + q.take(k).to_set()).insert(
                        q[k],
                    ));
                },
                None => {},
            }
        }
        assert(q.take(q.len() as int) =~= q);
    }

    /// Record the definition position of an inline-specialised function, so
    /// each of its inlined call sites bumps it; nothing unless instrumenting
    /// and the position is known.
    pub fn cov_note_inline_fn(&mut self, name: &str, position: Option<Position>)
        ensures
            final(self).state() == old(self).state(),
            final(self).wf() == old(self).wf(),
            final(self).debug() == old(self).debug(),
            match (old(self).coverage(), position) {
                (Some(c), Some(p)) => (final(self).coverage() matches Some(c2) && c2.lines() == c.lines()
                    && c2.inline_fns() == c.inline_fns().push((name@, p))),
                _ => final(self).coverage() == old(self).coverage(),
            },
    {
        match position {
            Some(p) => {
                let cov = match self.coverage.take() {
                    Some(mut c) => {
                        c.note_inline_fn(name, p);
                        Some(c)
                    },
                    None => None,
                };
                self.coverage = cov;
            },
            None => {},
        }
    }

    /// Mark the line of `position` covered at this point of the emitted
    /// code: declare its counter on first sight, then load, bump and store
    /// it; nothing unless instrumenting and the position is known.
    #[verifier::rlimit(60)]
    pub fn cov_hit(&mut self, position: Option<Position>)
        requires
            old(self).wf(),
            old(self).state().regs + 2 <= usize::MAX,
            old(self).debug_fits(3),
        ensures
            final(self).wf(),
            match (old(self).coverage(), position) {
                (Some(c), Some(p)) => {
                    let line = hit_line(p);
                    let global = "@__osp_cov_hits."@ + decimal(line as nat);
                    let n = old(self).state().regs as nat;
                    let d = old(self).debug();
                    &&& final(self).coverage() matches Some(c2)
                    &&& c2.lines() == c.lines().insert(line)
                    &&& c2.inline_fns() == c.inline_fns()
                    &&& final(self).state() == (Emission {
                        globals: if c.lines().contains(line) {
                            old(self).state().globals
                        } else {
                            old(self).state().globals.push(counter_decl(line))
                        },
                        regs: (n + 2) as usize,
                        lines: old(self).state().lines + seq![
                            instruction(register(n) + " = "@ + "load i64, i64* "@ + global, location_after(d, 0)),
                            instruction(register(n + 1) + " = "@ + "add i64 "@ + register(n) + ", 1"@, location_after(d, 1)),
                            instruction("store i64 "@ + register(n + 1) + ", i64* "@ + global, location_after(d, 2)),
                        ],
                        ..old(self).state()
                    })
                    &&& located_n(d, final(self).debug(), 3)
                },
                _ => final(self).coverage() == old(self).coverage() && final(self).state() == old(self).state()
                    && final(self).debug() == old(self).debug(),
            },
    {
        let line: u32 = match position {
            Some(p) => if p.line >= 1 {
                p.line
            } else {
                1
            },
            None => return,
        };
        let mut cov = match self.coverage.take() {
            Some(c) => c,
            None => return,
        };
        let first_sight = cov.insert_line(line);
        self.coverage = Some(cov);
        let global = crate::coverage::counter_global(line);
        if first_sight {
            let mut decl = global.clone();
            decl.append(" = internal global i64 0");
            self.add_global(decl.as_str());
        }
        let ghost d0 = self.debug;
        let ghost n = self.state().regs as nat;
        let ghost lines0 = self.state().lines;
        let ghost global_text = "@__osp_cov_hits."@ + decimal(line as nat);
        proof {
            lemma_located_none(d0);
        }
        let mut load = owned("load i64, i64* ");
        load.append(global.as_str());
        assert(load@ == "load i64, i64* "@ + global_text);
        let ghost da = self.debug;
        let loaded = self.emit_reg(load.as_str());
        proof {
            lemma_located_step(d0, da, self.debug, 0);
        }
        let ghost first = instruction(register(n) + " = "@ + "load i64, i64* "@ + global_text, location_after(d0, 0));
        assert(register(n) + " = "@ + load@ =~= register(n) + " = "@ + "load i64, i64* "@ + global_text);
        assert(self.state().lines == lines0.push(first));
        let mut add = owned("add i64 ");
        add.append(loaded.as_str());
        add.append(", 1");
        assert(add@ == "add i64 "@ + register(n) + ", 1"@);
        let ghost db = self.debug;
        let bumped = self.emit_reg(add.as_str());
        proof {
            lemma_located_step(d0, db, self.debug, 1);
        }
        let ghost second = instruction(register(n + 1) + " = "@ + "add i64 "@ + register(n) + ", 1"@, location_after(d0, 1));
        assert(register(n + 1) + " = "@ + add@ =~= register(n + 1) + " = "@ + "add i64 "@ + register(n) + ", 1"@);
        assert(self.state().lines == lines0.push(first).push(second));
        let mut store = owned("store i64 ");
        store.append(bumped.as_str());
        store.append(", i64* ");
        store.append(global.as_str());
        assert(store@ == "store i64 "@ + register(n + 1) + ", i64* "@ + global_text);
        let ghost dc = self.debug;
        self.emit(store.as_str());
        proof {
            lemma_located_step(d0, dc, self.debug, 2);
        }
        let ghost third = instruction("store i64 "@ + register(n + 1) + ", i64* "@ + global_text, location_after(d0, 2));
        assert(self.state().lines == lines0.push(first).push(second).push(third));
        assert(lines0.push(first).push(second).push(third) =~= lines0 + seq![first, second, third]);
    }

    /// Bump the definition line of the inline-specialised function `name` at
    /// one of its call sites; nothing unless instrumenting and `name` is one.
    pub fn cov_hit_inline_fn(&mut self, name: &str)
        requires
            old(self).wf(),
            old(self).state().regs + 2 <= usize::MAX,
            old(self).debug_fits(3),
        ensures
            final(self).wf(),
            ({
                let position = match old(self).coverage() {
                    Some(c) => crate::coverage::inline_line_of(c.inline_fns(), name@),
                    None => None,
                };
                match (old(self).coverage(), position) {
                    (Some(c), Some(p)) => {
                        let line = hit_line(p);
                        let global = "@__osp_cov_hits."@ + decimal(line as nat);
                        let n = old(self).state().regs as nat;
                        let d = old(self).debug();
                        &&& final(self).coverage() matches Some(c2)
                        &&& c2.lines() == c.lines().insert(line)
                        &&& c2.inline_fns() == c.inline_fns()
                        &&& final(self).state() == (Emission {
                            globals: if c.lines().contains(line) {
                                old(self).state().globals
                            } else {
                                old(self).state().globals.push(counter_decl(line))
                            },
                            regs: (n + 2) as usize,
                            lines: old(self).state().lines + seq![
                                instruction(register(n) + " = "@ + "load i64, i64* "@ + global, location_after(d, 0)),
                                instruction(register(n + 1) + " = "@ + "add i64 "@ + register(n) + ", 1"@, location_after(d, 1)),
                                instruction("store i64 "@ + register(n + 1) + ", i64* "@ + global, location_after(d, 2)),
                            ],
                            ..old(self).state()
                        })
                        &&& located_n(d, final(self).debug(), 3)
                    },
                    _ => final(self).coverage() == old(self).coverage() && final(self).state() == old(self).state()
                        && final(self).debug() == old(self).debug(),
                }
            }),
    {
        let position = match &self.coverage {
            Some(c) => c.inline_fn_line(name),
            None => None,
        };
        self.cov_hit(position);
    }

    /// Call the counter registration at the top of `main`; nothing unless
    /// instrumenting.
    pub fn cov_emit_boot(&mut self)
        requires
            old(self).wf(),
            old(self).debug_fits(1),
        ensures
            final(self).wf(),
            final(self).coverage() == old(self).coverage(),
            match old(self).coverage() {
                Some(_) => {
                    &&& final(self).state().externs.to_set() == old(self).state().externs.to_set().insert(
                        "declare void @osp_cov_register_line(i64, i64*)"@,
                    )
                    &&& final(self).state() == (Emission {
                        externs: final(self).state().externs,
                        lines: old(self).state().lines.push(
                            instruction("call void @__osp_cov_init()"@, location_of(old(self).debug())),
                        ),
                        ..old(self).state()
                    })
                    &&& located(old(self).debug(), final(self).debug())
                },
                None => final(self).state() == old(self).state() && final(self).debug() == old(self).debug(),
            },
    {
        if self.coverage.is_none() {
            return;
        }
        self.add_extern("declare void @osp_cov_register_line(i64, i64*)");
        self.emit("call void @__osp_cov_init()");
    }

    /// The counter registration function `__osp_cov_init`; none unless
    /// instrumenting.
    pub fn cov_render_init(&self) -> (r: Option<String>)
        ensures
            match self.coverage() {
                Some(c) => (r matches Some(t) && t@ == init_text(sorted_lines(c.lines()))),
                None => r is None,
            },
    {
        match &self.coverage {
            Some(c) => Some(c.render_init()),
            None => None,
        }
    }
}

/// The per-function emitter state of a function whose emission is
/// suspended while a nested one (a lifted lambda, a handler arm) is
/// emitted.
pub struct SavedFn {
    cur_lines: Vec<String>,
    cur_block: String,
    reg_count: usize,
    label_count: usize,
    scopes: Scopes,
    arc: ArcLedger,
    arc_slot_count: usize,
    rodata_regs: NameSet,
    debug_scope: Option<usize>,
    debug_position: Option<Position>,
    debug_retained: Option<usize>,
    debug_locals: Vec<usize>,
}

impl SavedFn {
    /// The suspended function's lines.
    pub closed spec fn lines(&self) -> Seq<Seq<char>> {
        crate::llty::texts(self.cur_lines@)
    }

    /// Its current block.
    pub closed spec fn block(&self) -> Seq<char> {
        self.cur_block@
    }

    /// Its register counter.
    pub closed spec fn regs(&self) -> usize {
        self.reg_count
    }

    /// Its label counter.
    pub closed spec fn labels(&self) -> usize {
        self.label_count
    }

    /// Its lexical scopes.
    pub closed spec fn frames(&self) -> Seq<Seq<(Seq<char>, Value)>> {
        self.scopes.frames()
    }

    /// Its ownership ledger.
    pub closed spec fn arc(&self) -> ArcLedger {
        self.arc
    }

    /// Its spill-slot counter.
    pub closed spec fn slots(&self) -> usize {
        self.arc_slot_count
    }

    /// Its registers pointing into private constants.
    pub closed spec fn rodata(&self) -> Set<Seq<char>> {
        self.rodata_regs.set()
    }

    /// Its debug subprogram.
    pub closed spec fn debug_scope(&self) -> Option<usize> {
        self.debug_scope
    }

    /// Its debug position.
    pub closed spec fn debug_position(&self) -> Option<Position> {
        self.debug_position
    }

    /// Its pending retained-nodes tuple.
    pub closed spec fn debug_retained(&self) -> Option<usize> {
        self.debug_retained
    }

    /// Its debug local variables.
    pub closed spec fn debug_locals(&self) -> Seq<usize> {
        self.debug_locals@
    }

    /// The saved register set is well formed.
    pub closed spec fn wf(&self) -> bool {
        self.rodata_regs.wf()
    }
}

impl Codegen {
    /// Suspend the function being emitted and start a nested one: fresh
    /// counters, an `entry` block, one empty scope, a fresh ledger, and no
    /// debug subprogram. The suspended state is answered, to be resumed by
    /// [`Codegen::exit_nested_fn`].
    pub fn enter_nested_fn(&mut self) -> (saved: SavedFn)
        requires
            old(self).wf(),
        ensures
            final(self).wf(),
            saved.wf(),
            saved.lines() == old(self).state().lines,
            saved.block() == old(self).state().block,
            saved.regs() == old(self).state().regs,
            saved.labels() == old(self).state().labels,
            saved.frames() == old(self).state().frames,
            saved.arc() == old(self).state().arc,
            saved.slots() == old(self).state().slots,
            saved.rodata() == old(self).state().rodata,
            final(self).state() == (Emission {
                regs: 0,
                labels: 0,
                lines: seq!["entry:"@],
                block: "entry"@,
                frames: seq![Seq::<(Seq<char>, Value)>::empty()],
                arc: final(self).state().arc,
                slots: 0,
                rodata: Set::empty(),
                ..old(self).state()
            }),
            final(self).state().arc.frames() == seq![Seq::<crate::arc::Owner>::empty()],
            final(self).state().arc.floors() == Seq::<(usize, usize)>::empty(),
            final(self).coverage() == old(self).coverage(),
            match old(self).debug() {
                Some(d) => {
                    &&& saved.debug_scope() == d.scope()
                    &&& saved.debug_position() == d.position()
                    &&& saved.debug_retained() == d.retained()
                    &&& saved.debug_locals() == d.locals()
                    &&& final(self).debug() matches Some(e)
                    &&& e.wf()
                    &&& e.nodes() == d.nodes()
                    &&& e.next() == d.next()
                    &&& e.scope() is None
                    &&& e.position() is None
                    &&& e.retained() is None
                    &&& e.locals() == Seq::<usize>::empty()
                    &&& e.source() == d.source()
                    &&& e.dwarf() == d.dwarf()
                },
                None => {
                    &&& final(self).debug() is None
                    &&& saved.debug_scope() is None
                    &&& saved.debug_position() is None
                    &&& saved.debug_retained() is None
                    &&& saved.debug_locals() == Seq::<usize>::empty()
                },
            },
    {
        let mut lines: Vec<String> = Vec::new();
        lines.push(owned("entry:"));
        std::mem::swap(&mut lines, &mut self.cur_lines);
        let mut block = owned("entry");
        std::mem::swap(&mut block, &mut self.cur_block);
        let mut scopes = Scopes::new();
        scopes.push_scope();
        std::mem::swap(&mut scopes, &mut self.scopes);
        let mut arc = ArcLedger::new();
        std::mem::swap(&mut arc, &mut self.arc);
        let mut rodata = NameSet::new();
        std::mem::swap(&mut rodata, &mut self.rodata_regs);
        let (debug_scope, debug_position, debug_retained, debug_locals, debug) = match self.debug.take() {
            Some(mut d) => {
                let (s, p, r, l) = d.context();
                d.clear_function();
                (s, p, r, l, Some(d))
            },
            None => (None, None, None, Vec::new(), None),
        };
        self.debug = debug;
        let saved = SavedFn {
            cur_lines: lines,
            cur_block: block,
            reg_count: self.reg_count,
            label_count: self.label_count,
            scopes,
            arc,
            arc_slot_count: self.arc_slot_count,
            rodata_regs: rodata,
            debug_scope,
            debug_position,
            debug_retained,
            debug_locals,
        };
        self.reg_count = 0;
        self.label_count = 0;
        self.arc_slot_count = 0;
        assert(crate::llty::texts(self.cur_lines@) =~= seq!["entry:"@]);
        assert(saved.debug_locals() =~= match old(self).debug() {
            Some(d) => d.locals(),
            None => Seq::<usize>::empty(),
        });
        saved
    }

    /// Finish the nested function, appending it to the module, and resume
    /// the suspended one, debug context included (its retained-nodes tuple
    /// still undefined).
    pub fn exit_nested_fn(&mut self, saved: SavedFn, ret: &str, name: &str, params: &[(LType, String)])
        requires
            old(self).wf(),
            saved.wf(),
            match (old(self).debug(), saved.debug_retained()) {
                (Some(d), Some(r)) => {
                    &&& FIRST_DYNAMIC_ID <= r < d.next()
                    &&& d.retained() != Some(r)
                    &&& forall|i: int| 0 <= i < d.nodes().len() ==> #[trigger] d.nodes()[i].0 != r
                },
                _ => true,
            },
        ensures
            final(self).wf(),
            final(self).state() == (Emission {
                funcs: old(self).state().funcs.push(
                    define_text(
                        ret@,
                        name@,
                        param_texts(params@),
                        define_dbg(old(self).debug()),
                        old(self).state().lines,
                    ),
                ),
                regs: saved.regs(),
                labels: saved.labels(),
                lines: saved.lines(),
                block: saved.block(),
                frames: saved.frames(),
                arc: saved.arc(),
                slots: saved.slots(),
                rodata: saved.rodata(),
                ..old(self).state()
            }),
            final(self).coverage() == old(self).coverage(),
            match old(self).debug() {
                Some(d) => final(self).debug() matches Some(e) && {
                    &&& e.wf()
                    &&& e.nodes() == match d.retained() {
                        Some(r) => d.nodes().push((r, retained_text(r as nat, d.locals()))),
                        None => d.nodes(),
                    }
                    &&& e.next() == d.next()
                    &&& e.scope() == saved.debug_scope()
                    &&& e.position() == saved.debug_position()
                    &&& e.retained() == saved.debug_retained()
                    &&& e.locals() == saved.debug_locals()
                    &&& e.source() == d.source()
                    &&& e.dwarf() == d.dwarf()
                },
                None => final(self).debug() is None,
            },
    {
        self.finish_function(ret, name, params);
        let SavedFn {
            cur_lines,
            cur_block,
            reg_count,
            label_count,
            scopes,
            arc,
            arc_slot_count,
            rodata_regs,
            debug_scope,
            debug_position,
            debug_retained,
            debug_locals,
        } = saved;
        self.cur_lines = cur_lines;
        self.cur_block = cur_block;
        self.reg_count = reg_count;
        self.label_count = label_count;
        self.scopes = scopes;
        self.arc = arc;
        self.arc_slot_count = arc_slot_count;
        self.rodata_regs = rodata_regs;
        let debug = match self.debug.take() {
            Some(mut d) => {
                proof {
                    if debug_retained is Some {
                        let r = debug_retained->0;
                        let d0 = old(self).debug()->0;
                        assert forall|i: int| 0 <= i < d.nodes().len() implies #[trigger] d.nodes()[i].0 != r by {
                            if i < d0.nodes().len() {
                                assert(d.nodes()[i] == d0.nodes()[i]);
                            }
                        }
                    }
                }
                d.resume(debug_scope, debug_position, debug_retained, debug_locals);
                Some(d)
            },
            None => None,
        };
        self.debug = debug;
    }
}

} // verus!
