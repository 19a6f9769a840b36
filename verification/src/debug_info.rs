//! LLVM/DWARF debug metadata for a module compiled with `--debug`: the fixed
//! nodes every such module carries (file, compile unit, basic types, module
//! flags) and the nodes allocated while functions are emitted (subprograms,
//! locations, local variables), each numbered once.

use crate::ast::Position;
use crate::builder::{escaped_meta, metadata_escape};
use crate::llty::{joined, texts, LType};
use crate::text::{decimal, owned, push_decimal};
use vstd::prelude::*;
use vstd::string::StringExecFns;

verus! {

/// Node id of the `!DIFile`.
pub const FILE_ID: usize = 0;
/// Node id of the `!DICompileUnit`.
pub const CU_ID: usize = 1;
/// Node id of the empty tuple.
pub const EMPTY_ID: usize = 2;
/// Node id of the shared `!DISubroutineType`.
pub const SUBROUTINE_TYPE_ID: usize = 3;
/// Node id of the `Dwarf Version` module flag.
pub const DWARF_FLAG_ID: usize = 4;
/// Node id of the `Debug Info Version` module flag.
pub const DEBUG_VERSION_FLAG_ID: usize = 5;
/// Node id of the producer identification.
pub const IDENT_ID: usize = 6;
/// Node id of the `int` basic type.
pub const I64_TYPE_ID: usize = 7;
/// Node id of the `c_int` basic type.
pub const I32_TYPE_ID: usize = 8;
/// Node id of the `bool` basic type.
pub const BOOL_TYPE_ID: usize = 9;
/// Node id of the `float` basic type.
pub const DOUBLE_TYPE_ID: usize = 10;
/// Node id of the `char` basic type.
pub const CHAR_TYPE_ID: usize = 11;
/// Node id of the `char*` pointer type.
pub const PTR_TYPE_ID: usize = 12;
/// The first id allocated while emitting functions.
pub const FIRST_DYNAMIC_ID: usize = 13;

/// The DWARF version a module announces: 4 when the host is macOS, whose
/// toolchain expects it, 5 elsewhere.
pub open spec fn dwarf_version_for(host_is_macos: bool) -> u8 {
    if host_is_macos {
        4
    } else {
        5
    }
}

/// The DWARF version a module announces on the host `host_is_macos` names.
pub fn host_dwarf_version(host_is_macos: bool) -> (r: u8)
    ensures
        r == dwarf_version_for(host_is_macos),
{
    if host_is_macos {
        4
    } else {
        5
    }
}

/// The source file a module is compiled from, as its metadata names it.
#[derive(Debug, Clone)]
pub struct DebugSource {
    /// The full path, as displayed.
    pub path: String,
    /// The file name.
    pub filename: String,
    /// The directory holding it.
    pub directory: String,
}

/// `!<id>`: a reference to metadata node `id`.
pub open spec fn node(id: nat) -> Seq<char> {
    "!"@ + decimal(id)
}

/// The line a function's subprogram names: its position's line, at least 1;
/// 1 without a position.
pub open spec fn subprogram_line(position: Option<Position>) -> nat {
    match position {
        Some(p) => if p.line >= 1 {
            p.line as nat
        } else {
            1
        },
        None => 1,
    }
}

/// A position's line, at least 1.
pub open spec fn line_of(p: Position) -> nat {
    if p.line >= 1 {
        p.line as nat
    } else {
        1
    }
}

/// A position's 1-based column: its column plus one, saturating, at least 1.
pub open spec fn column_of(p: Position) -> nat {
    if p.column == u32::MAX {
        u32::MAX as nat
    } else {
        (p.column + 1) as nat
    }
}

/// The `!DISubprogram` node `id` for a function spelled `name` (escaped).
pub open spec fn subprogram_text(id: nat, name: Seq<char>, line: nat, retained: nat) -> Seq<char> {
    node(id) + " = distinct !DISubprogram(name: \""@ + name + "\", linkageName: \""@ + name
        + "\", scope: "@ + node(FILE_ID as nat) + ", file: "@ + node(FILE_ID as nat) + ", line: "@
        + decimal(line) + ", type: "@ + node(SUBROUTINE_TYPE_ID as nat) + ", scopeLine: "@
        + decimal(line) + ", spFlags: DISPFlagDefinition, unit: "@ + node(CU_ID as nat)
        + ", retainedNodes: "@ + node(retained) + ")"@
}

/// The references to `ids`.
pub open spec fn node_refs(ids: Seq<usize>) -> Seq<Seq<char>> {
    ids.map_values(|i: usize| node(i as nat))
}

/// The retained-nodes tuple `id` listing a function's local variables.
pub open spec fn retained_text(id: nat, locals: Seq<usize>) -> Seq<char> {
    node(id) + " = !{"@ + joined(node_refs(locals), ", "@) + "}"@
}

/// The `!DILocation` node `id`.
pub open spec fn location_text(id: nat, line: nat, column: nat, scope: nat) -> Seq<char> {
    node(id) + " = !DILocation(line: "@ + decimal(line) + ", column: "@ + decimal(column)
        + ", scope: "@ + node(scope) + ")"@
}

/// The `!DILocalVariable` node `id` for a local spelled `name` (escaped).
pub open spec fn local_text(id: nat, name: Seq<char>, scope: nat, line: nat, ty: nat) -> Seq<
    char,
> {
    node(id) + " = !DILocalVariable(name: \""@ + name + "\", scope: "@ + node(scope) + ", file: "@
        + node(FILE_ID as nat) + ", line: "@ + decimal(line) + ", type: "@ + node(ty) + ")"@
}

/// The basic-type node describing a value of `ty`.
pub open spec fn type_node(ty: LType) -> usize {
    match ty {
        LType::I64 => I64_TYPE_ID,
        LType::I32 => I32_TYPE_ID,
        LType::I1 => BOOL_TYPE_ID,
        LType::Double => DOUBLE_TYPE_ID,
        LType::Str | LType::Ptr | LType::Any => PTR_TYPE_ID,
    }
}

/// Append `!<id>` to `out`.
fn push_node(out: &mut String, id: usize)
    ensures
        final(out)@ == old(out)@ + node(id as nat),
{
    out.append("!");
    push_decimal(out, id as u64);
    assert(final(out)@ =~= old(out)@ + node(id as nat));
}

/// The fixed nodes every debug module defines, in order: file, compile unit,
/// empty tuple, subroutine type, the two module flags, the producer, and the
/// basic and pointer types.
pub open spec fn fixed_lines(filename: Seq<char>, directory: Seq<char>, dwarf: u8) -> Seq<Seq<char>> {
    seq![
        node(FILE_ID as nat) + " = !DIFile(filename: \""@ + escaped_meta(filename)
            + "\", directory: \""@ + escaped_meta(directory) + "\")"@,
        node(CU_ID as nat) + " = distinct !DICompileUnit(language: DW_LANG_C, file: "@ + node(
            FILE_ID as nat,
        )
            + ", producer: \"osprey\", isOptimized: false, runtimeVersion: 0, emissionKind: FullDebug)"@,
        node(EMPTY_ID as nat) + " = !{}"@,
        node(SUBROUTINE_TYPE_ID as nat) + " = !DISubroutineType(types: "@ + node(EMPTY_ID as nat)
            + ")"@,
        node(DWARF_FLAG_ID as nat) + " = !{i32 2, !\"Dwarf Version\", i32 "@ + decimal(
            dwarf as nat,
        ) + "}"@,
        node(DEBUG_VERSION_FLAG_ID as nat) + " = !{i32 2, !\"Debug Info Version\", i32 3}"@,
        node(IDENT_ID as nat) + " = !{!\"osprey\"}"@,
        node(I64_TYPE_ID as nat) + " = !DIBasicType(name: \"int\", size: 64, encoding: DW_ATE_signed)"@,
        node(I32_TYPE_ID as nat)
            + " = !DIBasicType(name: \"c_int\", size: 32, encoding: DW_ATE_signed)"@,
        node(BOOL_TYPE_ID as nat)
            + " = !DIBasicType(name: \"bool\", size: 1, encoding: DW_ATE_boolean)"@,
        node(DOUBLE_TYPE_ID as nat)
            + " = !DIBasicType(name: \"float\", size: 64, encoding: DW_ATE_float)"@,
        node(CHAR_TYPE_ID as nat)
            + " = !DIBasicType(name: \"char\", size: 8, encoding: DW_ATE_signed_char)"@,
        node(PTR_TYPE_ID as nat) + " = !DIDerivedType(tag: DW_TAG_pointer_type, baseType: "@
            + node(CHAR_TYPE_ID as nat) + ", size: 64)"@,
    ]
}

/// `node(id)` followed by `rest`.
fn node_line(id: usize, rest: &str) -> (r: String)
    ensures
        r@ == node(id as nat) + rest@,
{
    let mut r = String::new();
    push_node(&mut r, id);
    r.append(rest);
    r
}

/// `node(id)`, then `mid`, then `node(other)`, then `tail`.
fn node_ref_line(id: usize, mid: &str, other: usize, tail: &str) -> (r: String)
    ensures
        r@ == node(id as nat) + mid@ + node(other as nat) + tail@,
{
    let mut r = node_line(id, mid);
    push_node(&mut r, other);
    r.append(tail);
    r
}

/// The debug metadata state of a module: its source, the function being
/// emitted (its subprogram node, position, retained-nodes tuple and local
/// variables), the next free node id, and the nodes allocated so far.
#[derive(Debug, Clone)]
pub struct DebugState {
    source: DebugSource,
    current_scope: Option<usize>,
    current_position: Option<Position>,
    current_retained_nodes: Option<usize>,
    current_local_ids: Vec<usize>,
    next_id: usize,
    dwarf_version: u8,
    dynamic: Vec<(usize, String)>,
}

impl DebugState {
    /// The nodes allocated while emitting functions, in the order they were
    /// completed: each node's id and its text.
    pub closed spec fn nodes(&self) -> Seq<(usize, Seq<char>)> {
        self.dynamic@.map_values(|d: (usize, String)| (d.0, d.1@))
    }

    /// The next free node id.
    pub closed spec fn next(&self) -> usize {
        self.next_id
    }

    /// The subprogram node of the function being emitted.
    pub closed spec fn scope(&self) -> Option<usize> {
        self.current_scope
    }

    /// The current source position.
    pub closed spec fn position(&self) -> Option<Position> {
        self.current_position
    }

    /// The retained-nodes tuple the function being emitted will define.
    pub closed spec fn retained(&self) -> Option<usize> {
        self.current_retained_nodes
    }

    /// The local-variable nodes of the function being emitted, in order.
    pub closed spec fn locals(&self) -> Seq<usize> {
        self.current_local_ids@
    }

    /// The source file.
    pub closed spec fn source(&self) -> DebugSource {
        self.source
    }

    /// The subprogram node of the function being emitted.
    pub fn current_scope(&self) -> (r: Option<usize>)
        ensures
            r == self.scope(),
    {
        self.current_scope
    }

    /// The DWARF version the module flags announce.
    pub closed spec fn dwarf(&self) -> u8 {
        self.dwarf_version
    }

    /// Every node id is defined at most once: the allocated nodes have
    /// distinct ids at or above [`FIRST_DYNAMIC_ID`] and below the next free
    /// id, and the pending retained-nodes tuple is allocated and not yet
    /// defined.
    pub closed spec fn wf(&self) -> bool {
        &&& FIRST_DYNAMIC_ID <= self.next_id
        &&& forall|i: int|
            0 <= i < self.dynamic@.len() ==> FIRST_DYNAMIC_ID <= #[trigger] self.dynamic@[i].0
                < self.next_id
        &&& forall|i: int, j: int|
            0 <= i < j < self.dynamic@.len() ==> #[trigger] self.dynamic@[i].0
                != #[trigger] self.dynamic@[j].0
        &&& match self.current_retained_nodes {
            Some(r) => FIRST_DYNAMIC_ID <= r < self.next_id && forall|i: int|
                0 <= i < self.dynamic@.len() ==> #[trigger] self.dynamic@[i].0 != r,
            None => true,
        }
    }

    /// A fresh state for `source`, announcing DWARF `dwarf_version`.
    pub fn new(source: DebugSource, dwarf_version: u8) -> (r: DebugState)
        ensures
            r.wf(),
            r.source() == source,
            r.dwarf() == dwarf_version,
            r.next() == FIRST_DYNAMIC_ID,
            r.nodes() == Seq::<(usize, Seq<char>)>::empty(),
            r.scope() is None,
            r.position() is None,
            r.retained() is None,
            r.locals() == Seq::<usize>::empty(),
    {
        let r = DebugState {
            source,
            current_scope: None,
            current_position: None,
            current_retained_nodes: None,
            current_local_ids: Vec::new(),
            next_id: FIRST_DYNAMIC_ID,
            dwarf_version,
            dynamic: Vec::new(),
        };
        assert(r.nodes() =~= Seq::<(usize, Seq<char>)>::empty());
        r
    }

    /// The escaped source path.
    pub fn source_filename(&self) -> (r: String)
        ensures
            r@ == escaped_meta(self.source().path@),
    {
        metadata_escape(self.source.path.as_str())
    }

    /// Allocate a fresh node id.
    fn alloc_id(&mut self) -> (id: usize)
        requires
            old(self).next_id < usize::MAX,
        ensures
            id == old(self).next_id,
            final(self).next_id == old(self).next_id + 1,
            final(self).source == old(self).source,
            final(self).current_scope == old(self).current_scope,
            final(self).current_position == old(self).current_position,
            final(self).current_retained_nodes == old(self).current_retained_nodes,
            final(self).current_local_ids == old(self).current_local_ids,
            final(self).dwarf_version == old(self).dwarf_version,
            final(self).dynamic == old(self).dynamic,
    {
        let id = self.next_id;
        self.next_id = self.next_id + 1;
        id
    }

    /// Close the function being emitted: define its retained-nodes tuple
    /// listing its local variables, if it has one pending.
    pub fn finish_function(&mut self)
        requires
            old(self).wf(),
        ensures
            final(self).wf(),
            match old(self).retained() {
                Some(r) => final(self).nodes() == old(self).nodes().push(
                    (r, retained_text(r as nat, old(self).locals())),
                ),
                None => final(self).nodes() == old(self).nodes(),
            },
            final(self).retained() is None,
            final(self).locals() == Seq::<usize>::empty(),
            final(self).next() == old(self).next(),
            final(self).scope() == old(self).scope(),
            final(self).position() == old(self).position(),
            final(self).source() == old(self).source(),
            final(self).dwarf() == old(self).dwarf(),
    {
        match self.current_retained_nodes {
            Some(id) => {
                let ghost locals = self.current_local_ids@;
                let mut parts: Vec<String> = Vec::new();
                let mut i: usize = 0;
                while i < self.current_local_ids.len()
                    invariant
                        locals == self.current_local_ids@,
                        i <= locals.len(),
                        texts(parts@) == node_refs(locals.subrange(0, i as int)),
                    decreases locals.len() - i,
                {
                    let mut part = String::new();
                    push_node(&mut part, self.current_local_ids[i]);
                    let ghost p0 = parts@;
                    parts.push(part);
                    proof {
                        assert(texts(parts@) =~= texts(p0).push(node(locals[i as int] as nat)));
                        assert(node_refs(locals.subrange(0, i + 1)) =~= node_refs(
                            locals.subrange(0, i as int),
                        ).push(node(locals[i as int] as nat)));
                    }
                    i = i + 1;
                }
                assert(locals.subrange(0, i as int) =~= locals);
                let joined_refs = crate::llty::join(parts.as_slice(), ", ");
                let mut text = String::new();
                push_node(&mut text, id);
                text.append(" = !{");
                text.append(joined_refs.as_str());
                text.append("}");
                assert(text@ =~= retained_text(id as nat, locals));
                let ghost d0 = self.dynamic@;
                let ghost tv = text@;
                self.dynamic.push((id, text));
                assert(self.dynamic@ == d0.push(self.dynamic@.last()));
                assert(self.dynamic@.last().1@ == tv);
                assert(self.nodes() =~= old(self).nodes().push((id, retained_text(id as nat, locals))));
                self.current_retained_nodes = None;
            },
            None => {},
        }
        self.current_local_ids.clear();
        assert(self.locals() =~= Seq::<usize>::empty());
    }

    /// Leave function emission without closing a subprogram.
    pub fn clear_function(&mut self)
        requires
            old(self).wf(),
        ensures
            final(self).wf(),
            final(self).scope() is None,
            final(self).position() is None,
            final(self).retained() is None,
            final(self).locals() == Seq::<usize>::empty(),
            final(self).nodes() == old(self).nodes(),
            final(self).next() == old(self).next(),
            final(self).source() == old(self).source(),
            final(self).dwarf() == old(self).dwarf(),
    {
        self.current_scope = None;
        self.current_position = None;
        self.current_retained_nodes = None;
        self.current_local_ids.clear();
        assert(self.locals() =~= Seq::<usize>::empty());
    }

    /// The function context: its subprogram, position, pending
    /// retained-nodes tuple and local variables.
    pub fn context(&self) -> (r: (Option<usize>, Option<Position>, Option<usize>, Vec<usize>))
        ensures
            r.0 == self.scope(),
            r.1 == self.position(),
            r.2 == self.retained(),
            r.3@ == self.locals(),
    {
        (self.current_scope, self.current_position, self.current_retained_nodes, self.current_local_ids.clone())
    }

    /// Resume a function context suspended by [`DebugState::context`]: its
    /// retained-nodes tuple must still be allocated and undefined.
    pub fn resume(
        &mut self,
        scope: Option<usize>,
        position: Option<Position>,
        retained: Option<usize>,
        locals: Vec<usize>,
    )
        requires
            old(self).wf(),
            retained matches Some(r) ==> FIRST_DYNAMIC_ID <= r < old(self).next() && forall|i: int|
                0 <= i < old(self).nodes().len() ==> #[trigger] old(self).nodes()[i].0 != r,
        ensures
            final(self).wf(),
            final(self).scope() == scope,
            final(self).position() == position,
            final(self).retained() == retained,
            final(self).locals() == locals@,
            final(self).nodes() == old(self).nodes(),
            final(self).next() == old(self).next(),
            final(self).source() == old(self).source(),
            final(self).dwarf() == old(self).dwarf(),
    {
        proof {
            if retained is Some {
                assert forall|i: int| 0 <= i < self.dynamic@.len() implies #[trigger] self.dynamic@[i].0
                    != retained->0 by {
                    assert(self.nodes()[i].0 == self.dynamic@[i].0);
                }
            }
        }
        self.current_scope = scope;
        self.current_position = position;
        self.current_retained_nodes = retained;
        self.current_local_ids = locals;
    }

    /// Put the current position back to `previous` (none included).
    pub fn restore_position(&mut self, previous: Option<Position>)
        requires
            old(self).wf(),
        ensures
            final(self).wf(),
            final(self).position() == previous,
            final(self).nodes() == old(self).nodes(),
            final(self).next() == old(self).next(),
            final(self).scope() == old(self).scope(),
            final(self).retained() == old(self).retained(),
            final(self).locals() == old(self).locals(),
            final(self).source() == old(self).source(),
            final(self).dwarf() == old(self).dwarf(),
    {
        self.current_position = previous;
    }

    /// Move to `position` when there is one, answering the previous position.
    pub fn set_position(&mut self, position: Option<Position>) -> (previous: Option<Position>)
        requires
            old(self).wf(),
        ensures
            final(self).wf(),
            previous == old(self).position(),
            final(self).position() == (if position is Some {
                position
            } else {
                old(self).position()
            }),
            final(self).nodes() == old(self).nodes(),
            final(self).next() == old(self).next(),
            final(self).scope() == old(self).scope(),
            final(self).retained() == old(self).retained(),
            final(self).locals() == old(self).locals(),
            final(self).source() == old(self).source(),
            final(self).dwarf() == old(self).dwarf(),
    {
        let previous = self.current_position;
        if position.is_some() {
            self.current_position = position;
        }
        previous
    }

    /// A `!DILocation` for the current position in the current scope; none
    /// outside a function or without a position.
    pub fn location_id(&mut self) -> (r: Option<usize>)
        requires
            old(self).wf(),
            old(self).next() < usize::MAX,
        ensures
            final(self).wf(),
            match (old(self).scope(), old(self).position()) {
                (Some(scope), Some(p)) => {
                    &&& r == Some(old(self).next())
                    &&& final(self).next() == old(self).next() + 1
                    &&& final(self).nodes() == old(self).nodes().push(
                        (
                            old(self).next(),
                            location_text(
                                old(self).next() as nat,
                                line_of(p),
                                column_of(p),
                                scope as nat,
                            ),
                        ),
                    )
                },
                _ => r is None && *final(self) == *old(self),
            },
            final(self).scope() == old(self).scope(),
            final(self).position() == old(self).position(),
            final(self).retained() == old(self).retained(),
            final(self).locals() == old(self).locals(),
            final(self).source() == old(self).source(),
            final(self).dwarf() == old(self).dwarf(),
    {
        let scope = match self.current_scope {
            Some(s) => s,
            None => return None,
        };
        let position = match self.current_position {
            Some(p) => p,
            None => return None,
        };
        let id = self.alloc_id();
        let line: u32 = if position.line >= 1 {
            position.line
        } else {
            1
        };
        let column: u32 = if position.column == u32::MAX {
            u32::MAX
        } else {
            position.column + 1
        };
        let mut text = String::new();
        push_node(&mut text, id);
        text.append(" = !DILocation(line: ");
        push_decimal(&mut text, line as u64);
        text.append(", column: ");
        push_decimal(&mut text, column as u64);
        text.append(", scope: ");
        push_node(&mut text, scope);
        text.append(")");
        assert(text@ =~= location_text(id as nat, line_of(position), column_of(position), scope as nat));
        let ghost d0 = self.dynamic@;
        let ghost tv = text@;
        self.dynamic.push((id, text));
        assert(self.dynamic@ == d0.push(self.dynamic@.last()));
        assert(self.dynamic@.last().1@ == tv);
        assert(self.nodes() =~= old(self).nodes().push(
            (id, location_text(id as nat, line_of(position), column_of(position), scope as nat)),
        ));
        Some(id)
    }

    /// A `!DILocalVariable` for a local spelled `name` of type `ty`, recorded
    /// among the current function's locals; none outside a function or
    /// without a position.
    pub fn local_variable_id(&mut self, name: &str, ty: LType) -> (r: Option<usize>)
        requires
            old(self).wf(),
            old(self).next() < usize::MAX,
        ensures
            final(self).wf(),
            match (old(self).scope(), old(self).position()) {
                (Some(scope), Some(p)) => {
                    &&& r == Some(old(self).next())
                    &&& final(self).next() == old(self).next() + 1
                    &&& final(self).nodes() == old(self).nodes().push(
                        (
                            old(self).next(),
                            local_text(
                                old(self).next() as nat,
                                escaped_meta(name@),
                                scope as nat,
                                line_of(p),
                                type_node(ty) as nat,
                            ),
                        ),
                    )
                    &&& final(self).locals() == old(self).locals().push(old(self).next())
                },
                _ => r is None && *final(self) == *old(self),
            },
            final(self).scope() == old(self).scope(),
            final(self).position() == old(self).position(),
            final(self).retained() == old(self).retained(),
            final(self).source() == old(self).source(),
            final(self).dwarf() == old(self).dwarf(),
    {
        let scope = match self.current_scope {
            Some(s) => s,
            None => return None,
        };
        let position = match self.current_position {
            Some(p) => p,
            None => return None,
        };
        let id = self.alloc_id();
        let line: u32 = if position.line >= 1 {
            position.line
        } else {
            1
        };
        let type_id = self.debug_type_id(ty);
        let escaped = metadata_escape(name);
        let mut text = String::new();
        push_node(&mut text, id);
        text.append(" = !DILocalVariable(name: \"");
        text.append(escaped.as_str());
        text.append("\", scope: ");
        push_node(&mut text, scope);
        text.append(", file: ");
        push_node(&mut text, FILE_ID);
        text.append(", line: ");
        push_decimal(&mut text, line as u64);
        text.append(", type: ");
        push_node(&mut text, type_id);
        text.append(")");
        assert(text@ =~= local_text(
            id as nat,
            escaped_meta(name@),
            scope as nat,
            line_of(position),
            type_node(ty) as nat,
        ));
        let ghost d0 = self.dynamic@;
        let ghost tv = text@;
        self.dynamic.push((id, text));
        assert(self.dynamic@ == d0.push(self.dynamic@.last()));
        assert(self.dynamic@.last().1@ == tv);
        assert(self.nodes() =~= old(self).nodes().push(
            (
                id,
                local_text(
                    id as nat,
                    escaped_meta(name@),
                    scope as nat,
                    line_of(position),
                    type_node(ty) as nat,
                ),
            ),
        ));
        self.current_local_ids.push(id);
        Some(id)
    }

    /// The basic-type node describing a value of `ty`.
    pub fn debug_type_id(&self, ty: LType) -> (r: usize)
        ensures
            r == type_node(ty),
    {
        match ty {
            LType::I64 => I64_TYPE_ID,
            LType::I32 => I32_TYPE_ID,
            LType::I1 => BOOL_TYPE_ID,
            LType::Double => DOUBLE_TYPE_ID,
            LType::Str | LType::Ptr | LType::Any => PTR_TYPE_ID,
        }
    }

    /// Every metadata definition of the module: the fixed nodes, then the
    /// allocated ones in the order they were completed.
    pub fn metadata_lines(&self) -> (r: Vec<String>)
        ensures
            texts(r@) == fixed_lines(
                self.source().filename@,
                self.source().directory@,
                self.dwarf(),
            ) + self.nodes().map_values(|n: (usize, Seq<char>)| n.1),
    {
        let mut out: Vec<String> = Vec::new();
        let file = metadata_escape(self.source.filename.as_str());
        let dir = metadata_escape(self.source.directory.as_str());
        let mut l0 = node_line(FILE_ID, " = !DIFile(filename: \"");
        l0.append(file.as_str());
        l0.append("\", directory: \"");
        l0.append(dir.as_str());
        l0.append("\")");
        out.push(l0);
        out.push(
            node_ref_line(
                CU_ID,
                " = distinct !DICompileUnit(language: DW_LANG_C, file: ",
                FILE_ID,
                ", producer: \"osprey\", isOptimized: false, runtimeVersion: 0, emissionKind: FullDebug)",
            ),
        );
        out.push(node_line(EMPTY_ID, " = !{}"));
        out.push(
            node_ref_line(SUBROUTINE_TYPE_ID, " = !DISubroutineType(types: ", EMPTY_ID, ")"),
        );
        let mut l4 = node_line(DWARF_FLAG_ID, " = !{i32 2, !\"Dwarf Version\", i32 ");
        push_decimal(&mut l4, self.dwarf_version as u64);
        l4.append("}");
        out.push(l4);
        out.push(node_line(DEBUG_VERSION_FLAG_ID, " = !{i32 2, !\"Debug Info Version\", i32 3}"));
        out.push(node_line(IDENT_ID, " = !{!\"osprey\"}"));
        out.push(
            node_line(
                I64_TYPE_ID,
                " = !DIBasicType(name: \"int\", size: 64, encoding: DW_ATE_signed)",
            ),
        );
        out.push(
            node_line(
                I32_TYPE_ID,
                " = !DIBasicType(name: \"c_int\", size: 32, encoding: DW_ATE_signed)",
            ),
        );
        out.push(
            node_line(
                BOOL_TYPE_ID,
                " = !DIBasicType(name: \"bool\", size: 1, encoding: DW_ATE_boolean)",
            ),
        );
        out.push(
            node_line(
                DOUBLE_TYPE_ID,
                " = !DIBasicType(name: \"float\", size: 64, encoding: DW_ATE_float)",
            ),
        );
        out.push(
            node_line(
                CHAR_TYPE_ID,
                " = !DIBasicType(name: \"char\", size: 8, encoding: DW_ATE_signed_char)",
            ),
        );
        out.push(
            node_ref_line(
                PTR_TYPE_ID,
                " = !DIDerivedType(tag: DW_TAG_pointer_type, baseType: ",
                CHAR_TYPE_ID,
                ", size: 64)",
            ),
        );
        let ghost fixed = fixed_lines(
            self.source().filename@,
            self.source().directory@,
            self.dwarf(),
        );
        assert(texts(out@) =~= fixed);
        let ghost nv = self.nodes().map_values(|n: (usize, Seq<char>)| n.1);
        let mut i: usize = 0;
        while i < self.dynamic.len()
            invariant
                i <= self.dynamic@.len(),
                nv == self.nodes().map_values(|n: (usize, Seq<char>)| n.1),
                texts(out@) == fixed + nv.subrange(0, i as int),
            decreases self.dynamic@.len() - i,
        {
            let ghost o0 = out@;
            out.push(self.dynamic[i].1.clone());
            proof {
                assert(nv[i as int] == self.dynamic@[i as int].1@);
                assert(texts(out@) =~= texts(o0).push(nv[i as int]));
                assert(nv.subrange(0, i + 1) =~= nv.subrange(0, i as int).push(nv[i as int]));
            }
            i = i + 1;
        }
        assert(nv.subrange(0, i as int) =~= nv);
        out
    }

    /// The module-flags list: the DWARF and debug-info version flags.
    pub fn module_flags(&self) -> (r: String)
        ensures
            r@ == "!llvm.module.flags = !{"@ + node(DWARF_FLAG_ID as nat) + ", "@ + node(
                DEBUG_VERSION_FLAG_ID as nat,
            ) + "}"@,
    {
        let mut r = owned("!llvm.module.flags = !{");
        push_node(&mut r, DWARF_FLAG_ID);
        r.append(", ");
        push_node(&mut r, DEBUG_VERSION_FLAG_ID);
        r.append("}");
        r
    }

    /// The compile-unit list.
    pub fn compile_units(&self) -> (r: String)
        ensures
            r@ == "!llvm.dbg.cu = !{"@ + node(CU_ID as nat) + "}"@,
    {
        let mut r = owned("!llvm.dbg.cu = !{");
        push_node(&mut r, CU_ID);
        r.append("}");
        r
    }

    /// The producer identification list.
    pub fn ident(&self) -> (r: String)
        ensures
            r@ == "!llvm.ident = !{"@ + node(IDENT_ID as nat) + "}"@,
    {
        let mut r = owned("!llvm.ident = !{");
        push_node(&mut r, IDENT_ID);
        r.append("}");
        r
    }

    /// Open the subprogram of a function spelled `name` at `position`:
    /// allocate its retained-nodes tuple and its subprogram node (in that
    /// order), define the subprogram, and make it the current scope.
    pub fn begin_function(&mut self, name: &str, position: Option<Position>) -> (id: usize)
        requires
            old(self).wf(),
            old(self).next() + 2 <= usize::MAX,
        ensures
            final(self).wf(),
            id == old(self).next() + 1,
            final(self).next() == old(self).next() + 2,
            final(self).nodes() == old(self).nodes().push(
                (
                    id,
                    subprogram_text(
                        id as nat,
                        escaped_meta(name@),
                        subprogram_line(position),
                        old(self).next() as nat,
                    ),
                ),
            ),
            final(self).scope() == Some(id),
            final(self).position() == position,
            final(self).retained() == Some(old(self).next()),
            final(self).locals() == Seq::<usize>::empty(),
            final(self).source() == old(self).source(),
            final(self).dwarf() == old(self).dwarf(),
    {
        let retained_id = self.alloc_id();
        let id = self.alloc_id();
        let line: u32 = match position {
            Some(p) => if p.line >= 1 {
                p.line
            } else {
                1
            },
            None => 1,
        };
        let escaped = metadata_escape(name);
        let mut text = String::new();
        push_node(&mut text, id);
        text.append(" = distinct !DISubprogram(name: \"");
        text.append(escaped.as_str());
        text.append("\", linkageName: \"");
        text.append(escaped.as_str());
        text.append("\", scope: ");
        push_node(&mut text, FILE_ID);
        text.append(", file: ");
        push_node(&mut text, FILE_ID);
        text.append(", line: ");
        push_decimal(&mut text, line as u64);
        text.append(", type: ");
        push_node(&mut text, SUBROUTINE_TYPE_ID);
        text.append(", scopeLine: ");
        push_decimal(&mut text, line as u64);
        text.append(", spFlags: DISPFlagDefinition, unit: ");
        push_node(&mut text, CU_ID);
        text.append(", retainedNodes: ");
        push_node(&mut text, retained_id);
        text.append(")");
        assert(text@ =~= subprogram_text(
            id as nat,
            escaped_meta(name@),
            subprogram_line(position),
            retained_id as nat,
        ));
        let ghost d0 = self.dynamic@;
        let ghost tv = text@;
        self.dynamic.push((id, text));
        assert(self.dynamic@ == d0.push(self.dynamic@.last()));
        assert(self.dynamic@.last().1@ == tv);
        self.current_scope = Some(id);
        self.current_position = position;
        self.current_retained_nodes = Some(retained_id);
        self.current_local_ids.clear();
        assert(self.nodes() =~= old(self).nodes().push(
            (
                id,
                subprogram_text(
                    id as nat,
                    escaped_meta(name@),
                    subprogram_line(position),
                    retained_id as nat,
                ),
            ),
        ));
        assert(self.locals() =~= Seq::<usize>::empty());
        id
    }
}

/// The pending retained-nodes tuple of a well-formed state is allocated and
/// not yet defined.
pub proof fn lemma_retained_pending(d: DebugState)
    requires
        d.wf(),
    ensures
        d.retained() matches Some(r) ==> FIRST_DYNAMIC_ID <= r < d.next() && forall|i: int|
            0 <= i < d.nodes().len() ==> #[trigger] d.nodes()[i].0 != r,
{
    if d.retained() is Some {
        assert forall|i: int| 0 <= i < d.nodes().len() implies #[trigger] d.nodes()[i].0 != d.retained()->0 by {
            assert(d.nodes()[i].0 == d.dynamic@[i].0);
        }
    }
}

/// Every metadata node is defined once: the allocated nodes of a
/// well-formed state (and every operation keeps it well-formed) have distinct
/// ids, none of them one of the fixed nodes, all below the next free id.
pub proof fn law_each_node_defined_once(d: DebugState)
    requires
        d.wf(),
    ensures
        forall|i: int, j: int|
            0 <= i < j < d.nodes().len() ==> #[trigger] d.nodes()[i].0 != #[trigger] d.nodes()[j].0,
        forall|i: int|
            0 <= i < d.nodes().len() ==> FIRST_DYNAMIC_ID <= #[trigger] d.nodes()[i].0 < d.next(),
{
    assert forall|i: int, j: int| 0 <= i < j < d.nodes().len() implies #[trigger] d.nodes()[i].0
        != #[trigger] d.nodes()[j].0 by {
        assert(d.nodes()[i].0 == d.dynamic@[i].0);
        assert(d.nodes()[j].0 == d.dynamic@[j].0);
    }
    assert forall|i: int| 0 <= i < d.nodes().len() implies FIRST_DYNAMIC_ID <= #[trigger] d.nodes()[i].0
        < d.next() by {
        assert(d.nodes()[i].0 == d.dynamic@[i].0);
    }
}

} // verus!
