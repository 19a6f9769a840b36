//! The runtime-builtin table: system builtins backed by the prebuilt C
//! runtime archives (random numbers, stdin, file I/O, processes, HTTP,
//! WebSocket, JSON, terminal control). Each camel-case Osprey name maps to its
//! snake-case C symbol with a fixed parameter signature and a return-wrapping
//! discipline; the archives' C signatures are the contract. Database APIs
//! deliberately stay ordinary extern calls.

use crate::llty::LType;
use crate::text::str_eq;
use vstd::prelude::*;

verus! {

/// How a runtime builtin's raw C return becomes an Osprey value.
#[derive(Debug, Clone, Copy, PartialEq, Eq)]
pub enum Ret {
    /// Plain `i64` (status, handle, count, exit code).
    Int,
    /// Plain `i8*` string, taken as-is (`input()` — the caller owns it).
    Str,
    /// `void` — yields Unit.
    Unit,
    /// C `i64` status discarded by a language-level Unit function.
    StatusUnit,
    /// `Result<int, _>`: the C `i64` is the success value; `< 0` ⇒ Error.
    ResultInt,
    /// `Result<string, _>`: the C `i8*` is the success value; `null` ⇒ Error.
    /// `Some(msg)` is the fallback reason, used only when the call recorded
    /// none of its own on the failure channel.
    ResultStr(Option<&'static str>),
}

/// One builtin's lowering: its C symbol, parameter LLVM types, and return
/// discipline. A `Ptr` parameter is a string/handle/callback travelling as
/// `i8*`.
#[derive(Debug)]
pub struct Sig {
    pub cname: &'static str,
    pub params: Vec<LType>,
    pub ret: Ret,
}

/// A table entry as its texts: builtin name, C symbol, parameter types,
/// return discipline.
pub type BuiltinRow = (Seq<char>, Seq<char>, Seq<LType>, Ret);

/// The runtime-builtin table, in lookup order.
pub open spec fn builtin_rows() -> Seq<BuiltinRow> {
    seq![
        ("random"@, "osp_random"@, Seq::<LType>::empty(), Ret::Int),
        ("randomBelow"@, "osp_random_below"@, seq![LType::I64], Ret::ResultInt),
        ("input"@, "osp_input"@, Seq::<LType>::empty(), Ret::Str),
        ("readFile"@, "read_file"@, seq![LType::Str], Ret::ResultStr(Some("File read error"))),
        ("writeFile"@, "write_file"@, seq![LType::Str, LType::Str], Ret::ResultInt),
        ("spawnProcess"@, "spawn_process_with_handler"@, seq![LType::Str, LType::Ptr], Ret::ResultInt),
        ("awaitProcess"@, "fiber_await_process"@, seq![LType::I64], Ret::Int),
        ("cleanupProcess"@, "fiber_cleanup_process"@, seq![LType::I64], Ret::Unit),
        ("sleep"@, "fiber_sleep"@, seq![LType::I64], Ret::StatusUnit),
        ("httpCreateServer"@, "http_create_server"@, seq![LType::I64, LType::Str], Ret::Int),
        ("httpListen"@, "http_listen"@, seq![LType::I64, LType::Ptr], Ret::Int),
        ("httpStopServer"@, "http_stop_server"@, seq![LType::I64], Ret::Int),
        ("httpCreateClient"@, "http_create_client"@, seq![LType::Str, LType::I64], Ret::Int),
        ("httpGet"@, "http_get"@, seq![LType::I64, LType::Str, LType::Str], Ret::Int),
        ("httpPost"@, "http_post"@, seq![LType::I64, LType::Str, LType::Str, LType::Str], Ret::Int),
        ("httpPut"@, "http_put"@, seq![LType::I64, LType::Str, LType::Str, LType::Str], Ret::Int),
        ("httpDelete"@, "http_delete"@, seq![LType::I64, LType::Str, LType::Str], Ret::Int),
        ("httpCloseClient"@, "http_close_client"@, seq![LType::I64], Ret::Int),
        ("httpGetResponse"@, "http_get_response"@, seq![LType::I64, LType::Str, LType::Str], Ret::ResultInt),
        ("httpResponseStatus"@, "http_response_status"@, seq![LType::I64], Ret::Int),
        ("httpResponseBody"@, "http_response_body"@, seq![LType::I64], Ret::ResultStr(None)),
        ("httpResponseHeader"@, "http_response_header"@, seq![LType::I64, LType::Str], Ret::ResultStr(None)),
        ("httpResponseFree"@, "http_response_free"@, seq![LType::I64], Ret::ResultInt),
        ("websocketCreateServer"@, "websocket_create_server"@, seq![LType::I64, LType::Str, LType::Str], Ret::Int),
        ("websocketServerListen"@, "websocket_server_listen"@, seq![LType::I64], Ret::Int),
        ("websocketServerBroadcast"@, "websocket_server_broadcast"@, seq![LType::I64, LType::Str], Ret::Int),
        ("websocketKeepAlive"@, "websocket_keep_alive"@, Seq::<LType>::empty(), Ret::Unit),
        ("websocketConnect"@, "websocket_connect"@, seq![LType::Str], Ret::Int),
        ("websocketSend"@, "websocket_send"@, seq![LType::I64, LType::Str], Ret::Int),
        ("websocketClose"@, "websocket_close"@, seq![LType::I64], Ret::Int),
        ("jsonParse"@, "json_parse"@, seq![LType::Str], Ret::ResultInt),
        ("jsonGet"@, "json_get"@, seq![LType::I64, LType::Str], Ret::ResultStr(None)),
        ("jsonLength"@, "json_length"@, seq![LType::I64, LType::Str], Ret::Int),
        ("jsonFree"@, "json_free"@, seq![LType::I64], Ret::ResultInt),
        ("termRawMode"@, "term_raw_mode"@, seq![LType::I64], Ret::StatusUnit),
        ("termCols"@, "term_cols"@, Seq::<LType>::empty(), Ret::Int),
        ("termRows"@, "term_rows"@, Seq::<LType>::empty(), Ret::Int),
        ("termReadKey"@, "term_read_key"@, Seq::<LType>::empty(), Ret::ResultStr(None)),
        ("termClear"@, "term_clear"@, Seq::<LType>::empty(), Ret::Int),
        ("termMoveCursor"@, "term_move_cursor"@, seq![LType::I64, LType::I64], Ret::Int),
        ("termHideCursor"@, "term_hide_cursor"@, Seq::<LType>::empty(), Ret::Int),
        ("termShowCursor"@, "term_show_cursor"@, Seq::<LType>::empty(), Ret::Int),
    ]
}

/// The C symbol, parameter types and return discipline of the first row of
/// `rows` named `name`.
pub open spec fn find_row(rows: Seq<BuiltinRow>, name: Seq<char>) -> Option<(Seq<char>, Seq<LType>, Ret)>
    decreases rows.len(),
{
    if rows.len() == 0 {
        None
    } else if rows[0].0 == name {
        Some((rows[0].1, rows[0].2, rows[0].3))
    } else {
        find_row(rows.drop_first(), name)
    }
}

/// The lowering of builtin `name`, if it is one.
pub open spec fn builtin(name: Seq<char>) -> Option<(Seq<char>, Seq<LType>, Ret)> {
    find_row(builtin_rows(), name)
}

/// One named table row.
pub struct Builtin {
    pub name: &'static str,
    pub sig: Sig,
}

/// The texts of a table row.
pub open spec fn row_of(b: Builtin) -> BuiltinRow {
    (b.name@, b.sig.cname@, b.sig.params@, b.sig.ret)
}

/// The texts of table rows.
pub open spec fn rows_of(t: Seq<Builtin>) -> Seq<BuiltinRow> {
    t.map_values(|b: Builtin| row_of(b))
}

proof fn lemma_push_row(prev: Seq<Builtin>, b: Builtin, k: int)
    requires
        0 <= k < builtin_rows().len(),
        rows_of(prev) == builtin_rows().take(k),
        row_of(b) =~~= builtin_rows()[k],
    ensures
        rows_of(prev.push(b)) == builtin_rows().take(k + 1),
{
    let next = prev.push(b);
    assert(rows_of(prev).len() == prev.len());
    assert(prev.len() == k);
    assert forall|i: int| 0 <= i < k + 1 implies rows_of(next)[i] == builtin_rows().take(k + 1)[i] by {
        if i < k {
            assert(rows_of(prev)[i] == builtin_rows().take(k)[i]);
        }
    }
    assert(rows_of(next) =~= builtin_rows().take(k + 1));
}

/// A table row.
fn entry(name: &'static str, cname: &'static str, params: &[LType], ret: Ret) -> (r: Builtin)
    ensures
        row_of(r) == (name@, cname@, params@, ret),
{
    let mut ps: Vec<LType> = Vec::new();
    let mut i: usize = 0;
    while i < params.len()
        invariant
            i <= params@.len(),
            ps@ =~= params@.subrange(0, i as int),
        decreases params@.len() - i,
    {
        ps.push(params[i]);
        i = i + 1;
        assert(ps@ =~= params@.subrange(0, i as int));
    }
    assert(ps@ =~= params@);
    Builtin { name, sig: Sig { cname, params: ps, ret } }
}

/// Rows 0 to 5 of the table.
fn push_rows_0_6(t: &mut Vec<Builtin>)
    requires
        rows_of(old(t)@) == builtin_rows().take(0),
    ensures
        rows_of(final(t)@) == builtin_rows().take(6),
{
    let ghost prev = t@;
    let b = entry("random", "osp_random", &[], Ret::Int);
    proof {
        lemma_push_row(prev, b, 0);
    }
    t.push(b);
    let ghost prev = t@;
    let b = entry("randomBelow", "osp_random_below", &[LType::I64], Ret::ResultInt);
    proof {
        lemma_push_row(prev, b, 1);
    }
    t.push(b);
    let ghost prev = t@;
    let b = entry("input", "osp_input", &[], Ret::Str);
    proof {
        lemma_push_row(prev, b, 2);
    }
    t.push(b);
    let ghost prev = t@;
    let b = entry("readFile", "read_file", &[LType::Str], Ret::ResultStr(Some("File read error")));
    proof {
        lemma_push_row(prev, b, 3);
    }
    t.push(b);
    let ghost prev = t@;
    let b = entry("writeFile", "write_file", &[LType::Str, LType::Str], Ret::ResultInt);
    proof {
        lemma_push_row(prev, b, 4);
    }
    t.push(b);
    let ghost prev = t@;
    let b = entry("spawnProcess", "spawn_process_with_handler", &[LType::Str, LType::Ptr], Ret::ResultInt);
    proof {
        lemma_push_row(prev, b, 5);
    }
    t.push(b);
}

/// Rows 6 to 11 of the table.
fn push_rows_6_12(t: &mut Vec<Builtin>)
    requires
        rows_of(old(t)@) == builtin_rows().take(6),
    ensures
        rows_of(final(t)@) == builtin_rows().take(12),
{
    let ghost prev = t@;
    let b = entry("awaitProcess", "fiber_await_process", &[LType::I64], Ret::Int);
    proof {
        lemma_push_row(prev, b, 6);
    }
    t.push(b);
    let ghost prev = t@;
    let b = entry("cleanupProcess", "fiber_cleanup_process", &[LType::I64], Ret::Unit);
    proof {
        lemma_push_row(prev, b, 7);
    }
    t.push(b);
    let ghost prev = t@;
    let b = entry("sleep", "fiber_sleep", &[LType::I64], Ret::StatusUnit);
    proof {
        lemma_push_row(prev, b, 8);
    }
    t.push(b);
    let ghost prev = t@;
    let b = entry("httpCreateServer", "http_create_server", &[LType::I64, LType::Str], Ret::Int);
    proof {
        lemma_push_row(prev, b, 9);
    }
    t.push(b);
    let ghost prev = t@;
    let b = entry("httpListen", "http_listen", &[LType::I64, LType::Ptr], Ret::Int);
    proof {
        lemma_push_row(prev, b, 10);
    }
    t.push(b);
    let ghost prev = t@;
    let b = entry("httpStopServer", "http_stop_server", &[LType::I64], Ret::Int);
    proof {
        lemma_push_row(prev, b, 11);
    }
    t.push(b);
}

/// Rows 12 to 17 of the table.
fn push_rows_12_18(t: &mut Vec<Builtin>)
    requires
        rows_of(old(t)@) == builtin_rows().take(12),
    ensures
        rows_of(final(t)@) == builtin_rows().take(18),
{
    let ghost prev = t@;
    let b = entry("httpCreateClient", "http_create_client", &[LType::Str, LType::I64], Ret::Int);
    proof {
        lemma_push_row(prev, b, 12);
    }
    t.push(b);
    let ghost prev = t@;
    let b = entry("httpGet", "http_get", &[LType::I64, LType::Str, LType::Str], Ret::Int);
    proof {
        lemma_push_row(prev, b, 13);
    }
    t.push(b);
    let ghost prev = t@;
    let b = entry("httpPost", "http_post", &[LType::I64, LType::Str, LType::Str, LType::Str], Ret::Int);
    proof {
        lemma_push_row(prev, b, 14);
    }
    t.push(b);
    let ghost prev = t@;
    let b = entry("httpPut", "http_put", &[LType::I64, LType::Str, LType::Str, LType::Str], Ret::Int);
    proof {
        lemma_push_row(prev, b, 15);
    }
    t.push(b);
    let ghost prev = t@;
    let b = entry("httpDelete", "http_delete", &[LType::I64, LType::Str, LType::Str], Ret::Int);
    proof {
        lemma_push_row(prev, b, 16);
    }
    t.push(b);
    let ghost prev = t@;
    let b = entry("httpCloseClient", "http_close_client", &[LType::I64], Ret::Int);
    proof {
        lemma_push_row(prev, b, 17);
    }
    t.push(b);
}

/// Rows 18 to 23 of the table.
fn push_rows_18_24(t: &mut Vec<Builtin>)
    requires
        rows_of(old(t)@) == builtin_rows().take(18),
    ensures
        rows_of(final(t)@) == builtin_rows().take(24),
{
    let ghost prev = t@;
    let b = entry("httpGetResponse", "http_get_response", &[LType::I64, LType::Str, LType::Str], Ret::ResultInt);
    proof {
        lemma_push_row(prev, b, 18);
    }
    t.push(b);
    let ghost prev = t@;
    let b = entry("httpResponseStatus", "http_response_status", &[LType::I64], Ret::Int);
    proof {
        lemma_push_row(prev, b, 19);
    }
    t.push(b);
    let ghost prev = t@;
    let b = entry("httpResponseBody", "http_response_body", &[LType::I64], Ret::ResultStr(None));
    proof {
        lemma_push_row(prev, b, 20);
    }
    t.push(b);
    let ghost prev = t@;
    let b = entry("httpResponseHeader", "http_response_header", &[LType::I64, LType::Str], Ret::ResultStr(None));
    proof {
        lemma_push_row(prev, b, 21);
    }
    t.push(b);
    let ghost prev = t@;
    let b = entry("httpResponseFree", "http_response_free", &[LType::I64], Ret::ResultInt);
    proof {
        lemma_push_row(prev, b, 22);
    }
    t.push(b);
    let ghost prev = t@;
    let b = entry("websocketCreateServer", "websocket_create_server", &[LType::I64, LType::Str, LType::Str], Ret::Int);
    proof {
        lemma_push_row(prev, b, 23);
    }
    t.push(b);
}

/// Rows 24 to 29 of the table.
fn push_rows_24_30(t: &mut Vec<Builtin>)
    requires
        rows_of(old(t)@) == builtin_rows().take(24),
    ensures
        rows_of(final(t)@) == builtin_rows().take(30),
{
    let ghost prev = t@;
    let b = entry("websocketServerListen", "websocket_server_listen", &[LType::I64], Ret::Int);
    proof {
        lemma_push_row(prev, b, 24);
    }
    t.push(b);
    let ghost prev = t@;
    let b = entry("websocketServerBroadcast", "websocket_server_broadcast", &[LType::I64, LType::Str], Ret::Int);
    proof {
        lemma_push_row(prev, b, 25);
    }
    t.push(b);
    let ghost prev = t@;
    let b = entry("websocketKeepAlive", "websocket_keep_alive", &[], Ret::Unit);
    proof {
        lemma_push_row(prev, b, 26);
    }
    t.push(b);
    let ghost prev = t@;
    let b = entry("websocketConnect", "websocket_connect", &[LType::Str], Ret::Int);
    proof {
        lemma_push_row(prev, b, 27);
    }
    t.push(b);
    let ghost prev = t@;
    let b = entry("websocketSend", "websocket_send", &[LType::I64, LType::Str], Ret::Int);
    proof {
        lemma_push_row(prev, b, 28);
    }
    t.push(b);
    let ghost prev = t@;
    let b = entry("websocketClose", "websocket_close", &[LType::I64], Ret::Int);
    proof {
        lemma_push_row(prev, b, 29);
    }
    t.push(b);
}

/// Rows 30 to 35 of the table.
fn push_rows_30_36(t: &mut Vec<Builtin>)
    requires
        rows_of(old(t)@) == builtin_rows().take(30),
    ensures
        rows_of(final(t)@) == builtin_rows().take(36),
{
    let ghost prev = t@;
    let b = entry("jsonParse", "json_parse", &[LType::Str], Ret::ResultInt);
    proof {
        lemma_push_row(prev, b, 30);
    }
    t.push(b);
    let ghost prev = t@;
    let b = entry("jsonGet", "json_get", &[LType::I64, LType::Str], Ret::ResultStr(None));
    proof {
        lemma_push_row(prev, b, 31);
    }
    t.push(b);
    let ghost prev = t@;
    let b = entry("jsonLength", "json_length", &[LType::I64, LType::Str], Ret::Int);
    proof {
        lemma_push_row(prev, b, 32);
    }
    t.push(b);
    let ghost prev = t@;
    let b = entry("jsonFree", "json_free", &[LType::I64], Ret::ResultInt);
    proof {
        lemma_push_row(prev, b, 33);
    }
    t.push(b);
    let ghost prev = t@;
    let b = entry("termRawMode", "term_raw_mode", &[LType::I64], Ret::StatusUnit);
    proof {
        lemma_push_row(prev, b, 34);
    }
    t.push(b);
    let ghost prev = t@;
    let b = entry("termCols", "term_cols", &[], Ret::Int);
    proof {
        lemma_push_row(prev, b, 35);
    }
    t.push(b);
}

/// Rows 36 to 41 of the table.
fn push_rows_36_42(t: &mut Vec<Builtin>)
    requires
        rows_of(old(t)@) == builtin_rows().take(36),
    ensures
        rows_of(final(t)@) == builtin_rows().take(42),
{
    let ghost prev = t@;
    let b = entry("termRows", "term_rows", &[], Ret::Int);
    proof {
        lemma_push_row(prev, b, 36);
    }
    t.push(b);
    let ghost prev = t@;
    let b = entry("termReadKey", "term_read_key", &[], Ret::ResultStr(None));
    proof {
        lemma_push_row(prev, b, 37);
    }
    t.push(b);
    let ghost prev = t@;
    let b = entry("termClear", "term_clear", &[], Ret::Int);
    proof {
        lemma_push_row(prev, b, 38);
    }
    t.push(b);
    let ghost prev = t@;
    let b = entry("termMoveCursor", "term_move_cursor", &[LType::I64, LType::I64], Ret::Int);
    proof {
        lemma_push_row(prev, b, 39);
    }
    t.push(b);
    let ghost prev = t@;
    let b = entry("termHideCursor", "term_hide_cursor", &[], Ret::Int);
    proof {
        lemma_push_row(prev, b, 40);
    }
    t.push(b);
    let ghost prev = t@;
    let b = entry("termShowCursor", "term_show_cursor", &[], Ret::Int);
    proof {
        lemma_push_row(prev, b, 41);
    }
    t.push(b);
}

/// The runtime-builtin table.
fn table() -> (t: Vec<Builtin>)
    ensures
        rows_of(t@) == builtin_rows(),
{
    let mut t: Vec<Builtin> = Vec::new();
    assert(rows_of(t@) =~= builtin_rows().take(0));
    push_rows_0_6(&mut t);
    push_rows_6_12(&mut t);
    push_rows_12_18(&mut t);
    push_rows_18_24(&mut t);
    push_rows_24_30(&mut t);
    push_rows_30_36(&mut t);
    push_rows_36_42(&mut t);
    assert(builtin_rows().take(42) =~= builtin_rows());
    t
}

/// The runtime-builtin table — `None` if `name` is not one (so the caller
/// falls through to a user call). Every `Result<int>` builtin shares the
/// `< 0 ⇒ Error` convention, every `Result<string>` the `null ⇒ Error` one.
pub fn lookup(name: &str) -> (r: Option<Sig>)
    ensures
        match (r, builtin(name@)) {
            (Some(s), Some((c, ps, ret))) => s.cname@ == c && s.params@ == ps && s.ret == ret,
            (None, None) => true,
            _ => false,
        },
{
    let mut t = table();
    let ghost rows = builtin_rows();
    let mut i: usize = 0;
    assert(rows.skip(0) =~= rows);
    while i < t.len()
        invariant
            rows_of(t@) == rows,
            rows == builtin_rows(),
            i <= rows.len(),
            builtin(name@) == find_row(rows.skip(i as int), name@),
        decreases rows.len() - i,
    {
        proof {
            assert(rows.skip(i as int)[0] == row_of(t@[i as int]));
            assert(rows.skip(i as int).drop_first() =~= rows.skip(i + 1));
        }
        if str_eq(t[i].name, name) {
            let b = t.remove(i);
            return Some(b.sig);
        }
        i = i + 1;
    }
    None
}

/// `c` holds no ASCII capital letter.
pub open spec fn lower_case(c: Seq<char>) -> bool {
    forall|j: int| 0 <= j < c.len() ==> !('A' <= #[trigger] c[j] && c[j] <= 'Z')
}

/// A table row whose C symbol is lower case and differs from the Osprey
/// name it lowers.
pub open spec fn row_ok(r: BuiltinRow) -> bool {
    lower_case(r.1) && r.1 != r.0
}

/// `c` holds no ASCII capital letter from index `k` on.
pub open spec fn lower_from(c: Seq<char>, k: int) -> bool
    decreases c.len() - k,
{
    if k < 0 || k >= c.len() {
        true
    } else {
        !('A' <= c[k] && c[k] <= 'Z') && lower_from(c, k + 1)
    }
}

/// Checking index by index from `k` on checks every index from `k` on.
proof fn lemma_lower_from(c: Seq<char>, k: int)
    requires
        0 <= k,
        lower_from(c, k),
    ensures
        forall|j: int| k <= j < c.len() ==> !('A' <= #[trigger] c[j] && c[j] <= 'Z'),
    decreases c.len() - k,
{
    if k < c.len() {
        lemma_lower_from(c, k + 1);
    }
}

/// A row found by name is one of the rows.
proof fn lemma_found_row(rows: Seq<BuiltinRow>, name: Seq<char>)
    ensures
        find_row(rows, name) matches Some((c, ps, ret)) ==> exists|i: int|
            0 <= i < rows.len() && #[trigger] rows[i] == (name, c, ps, ret),
    decreases rows.len(),
{
    if rows.len() > 0 && rows[0].0 != name {
        lemma_found_row(rows.drop_first(), name);
        if let Some((c, ps, ret)) = find_row(rows.drop_first(), name) {
            let i = choose|i: int| 0 <= i < rows.drop_first().len() && #[trigger] rows.drop_first()[i] == (name, c, ps, ret);
            assert(rows[i + 1] == (name, c, ps, ret));
        }
    } else if rows.len() > 0 {
        assert(rows[0] == (name, rows[0].1, rows[0].2, rows[0].3));
    }
}

/// Rows 0 to 5 of the table are well formed.
proof fn lemma_rows_ok_0()
    ensures
        forall|i: int| 0 <= i < 6 ==> row_ok(#[trigger] builtin_rows()[i]),
{
    reveal_strlit("random");
    reveal_strlit("osp_random");
    reveal_strlit("randomBelow");
    reveal_strlit("osp_random_below");
    reveal_strlit("input");
    reveal_strlit("osp_input");
    reveal_strlit("readFile");
    reveal_strlit("read_file");
    reveal_strlit("writeFile");
    reveal_strlit("write_file");
    reveal_strlit("spawnProcess");
    reveal_strlit("spawn_process_with_handler");
    reveal_with_fuel(lower_from, 30);
    assert(lower_from("random"@, 0));
    lemma_lower_from("random"@, 0);
    assert(lower_from("osp_random"@, 0));
    lemma_lower_from("osp_random"@, 0);
    assert(lower_from("osp_random_below"@, 0));
    lemma_lower_from("osp_random_below"@, 0);
    assert(lower_from("input"@, 0));
    lemma_lower_from("input"@, 0);
    assert(lower_from("osp_input"@, 0));
    lemma_lower_from("osp_input"@, 0);
    assert(lower_from("read_file"@, 0));
    lemma_lower_from("read_file"@, 0);
    assert(lower_from("write_file"@, 0));
    lemma_lower_from("write_file"@, 0);
    assert(lower_from("spawn_process_with_handler"@, 0));
    lemma_lower_from("spawn_process_with_handler"@, 0);
    assert(row_ok(builtin_rows()[0]));
    assert(row_ok(builtin_rows()[1]));
    assert(row_ok(builtin_rows()[2]));
    assert(row_ok(builtin_rows()[3]));
    assert(row_ok(builtin_rows()[4]));
    assert(row_ok(builtin_rows()[5]));
}

/// Rows 6 to 11 of the table are well formed.
proof fn lemma_rows_ok_1()
    ensures
        forall|i: int| 6 <= i < 12 ==> row_ok(#[trigger] builtin_rows()[i]),
{
    reveal_strlit("awaitProcess");
    reveal_strlit("fiber_await_process");
    reveal_strlit("cleanupProcess");
    reveal_strlit("fiber_cleanup_process");
    reveal_strlit("sleep");
    reveal_strlit("fiber_sleep");
    reveal_strlit("httpCreateServer");
    reveal_strlit("http_create_server");
    reveal_strlit("httpListen");
    reveal_strlit("http_listen");
    reveal_strlit("httpStopServer");
    reveal_strlit("http_stop_server");
    reveal_with_fuel(lower_from, 30);
    assert(lower_from("fiber_await_process"@, 0));
    lemma_lower_from("fiber_await_process"@, 0);
    assert(lower_from("fiber_cleanup_process"@, 0));
    lemma_lower_from("fiber_cleanup_process"@, 0);
    assert(lower_from("sleep"@, 0));
    lemma_lower_from("sleep"@, 0);
    assert(lower_from("fiber_sleep"@, 0));
    lemma_lower_from("fiber_sleep"@, 0);
    assert(lower_from("http_create_server"@, 0));
    lemma_lower_from("http_create_server"@, 0);
    assert(lower_from("http_listen"@, 0));
    lemma_lower_from("http_listen"@, 0);
    assert(lower_from("http_stop_server"@, 0));
    lemma_lower_from("http_stop_server"@, 0);
    assert(row_ok(builtin_rows()[6]));
    assert(row_ok(builtin_rows()[7]));
    assert(row_ok(builtin_rows()[8]));
    assert(row_ok(builtin_rows()[9]));
    assert(row_ok(builtin_rows()[10]));
    assert(row_ok(builtin_rows()[11]));
}

/// Rows 12 to 17 of the table are well formed.
proof fn lemma_rows_ok_2()
    ensures
        forall|i: int| 12 <= i < 18 ==> row_ok(#[trigger] builtin_rows()[i]),
{
    reveal_strlit("httpCreateClient");
    reveal_strlit("http_create_client");
    reveal_strlit("httpGet");
    reveal_strlit("http_get");
    reveal_strlit("httpPost");
    reveal_strlit("http_post");
    reveal_strlit("httpPut");
    reveal_strlit("http_put");
    reveal_strlit("httpDelete");
    reveal_strlit("http_delete");
    reveal_strlit("httpCloseClient");
    reveal_strlit("http_close_client");
    reveal_with_fuel(lower_from, 30);
    assert(lower_from("http_create_client"@, 0));
    lemma_lower_from("http_create_client"@, 0);
    assert(lower_from("http_get"@, 0));
    lemma_lower_from("http_get"@, 0);
    assert(lower_from("http_post"@, 0));
    lemma_lower_from("http_post"@, 0);
    assert(lower_from("http_put"@, 0));
    lemma_lower_from("http_put"@, 0);
    assert(lower_from("http_delete"@, 0));
    lemma_lower_from("http_delete"@, 0);
    assert(lower_from("http_close_client"@, 0));
    lemma_lower_from("http_close_client"@, 0);
    assert(row_ok(builtin_rows()[12]));
    assert(row_ok(builtin_rows()[13]));
    assert(row_ok(builtin_rows()[14]));
    assert(row_ok(builtin_rows()[15]));
    assert(row_ok(builtin_rows()[16]));
    assert(row_ok(builtin_rows()[17]));
}

/// Rows 18 to 23 of the table are well formed.
proof fn lemma_rows_ok_3()
    ensures
        forall|i: int| 18 <= i < 24 ==> row_ok(#[trigger] builtin_rows()[i]),
{
    reveal_strlit("httpGetResponse");
    reveal_strlit("http_get_response");
    reveal_strlit("httpResponseStatus");
    reveal_strlit("http_response_status");
    reveal_strlit("httpResponseBody");
    reveal_strlit("http_response_body");
    reveal_strlit("httpResponseHeader");
    reveal_strlit("http_response_header");
    reveal_strlit("httpResponseFree");
    reveal_strlit("http_response_free");
    reveal_strlit("websocketCreateServer");
    reveal_strlit("websocket_create_server");
    reveal_with_fuel(lower_from, 30);
    assert(lower_from("http_get_response"@, 0));
    lemma_lower_from("http_get_response"@, 0);
    assert(lower_from("http_response_status"@, 0));
    lemma_lower_from("http_response_status"@, 0);
    assert(lower_from("http_response_body"@, 0));
    lemma_lower_from("http_response_body"@, 0);
    assert(lower_from("http_response_header"@, 0));
    lemma_lower_from("http_response_header"@, 0);
    assert(lower_from("http_response_free"@, 0));
    lemma_lower_from("http_response_free"@, 0);
    assert(lower_from("websocket_create_server"@, 0));
    lemma_lower_from("websocket_create_server"@, 0);
    assert(row_ok(builtin_rows()[18]));
    assert(row_ok(builtin_rows()[19]));
    assert(row_ok(builtin_rows()[20]));
    assert(row_ok(builtin_rows()[21]));
    assert(row_ok(builtin_rows()[22]));
    assert(row_ok(builtin_rows()[23]));
}

/// Rows 24 to 29 of the table are well formed.
proof fn lemma_rows_ok_4()
    ensures
        forall|i: int| 24 <= i < 30 ==> row_ok(#[trigger] builtin_rows()[i]),
{
    reveal_strlit("websocketServerListen");
    reveal_strlit("websocket_server_listen");
    reveal_strlit("websocketServerBroadcast");
    reveal_strlit("websocket_server_broadcast");
    reveal_strlit("websocketKeepAlive");
    reveal_strlit("websocket_keep_alive");
    reveal_strlit("websocketConnect");
    reveal_strlit("websocket_connect");
    reveal_strlit("websocketSend");
    reveal_strlit("websocket_send");
    reveal_strlit("websocketClose");
    reveal_strlit("websocket_close");
    reveal_with_fuel(lower_from, 30);
    assert(lower_from("websocket_server_listen"@, 0));
    lemma_lower_from("websocket_server_listen"@, 0);
    assert(lower_from("websocket_server_broadcast"@, 0));
    lemma_lower_from("websocket_server_broadcast"@, 0);
    assert(lower_from("websocket_keep_alive"@, 0));
    lemma_lower_from("websocket_keep_alive"@, 0);
    assert(lower_from("websocket_connect"@, 0));
    lemma_lower_from("websocket_connect"@, 0);
    assert(lower_from("websocket_send"@, 0));
    lemma_lower_from("websocket_send"@, 0);
    assert(lower_from("websocket_close"@, 0));
    lemma_lower_from("websocket_close"@, 0);
    assert(row_ok(builtin_rows()[24]));
    assert(row_ok(builtin_rows()[25]));
    assert(row_ok(builtin_rows()[26]));
    assert(row_ok(builtin_rows()[27]));
    assert(row_ok(builtin_rows()[28]));
    assert(row_ok(builtin_rows()[29]));
}

/// Rows 30 to 35 of the table are well formed.
proof fn lemma_rows_ok_5()
    ensures
        forall|i: int| 30 <= i < 36 ==> row_ok(#[trigger] builtin_rows()[i]),
{
    reveal_strlit("jsonParse");
    reveal_strlit("json_parse");
    reveal_strlit("jsonGet");
    reveal_strlit("json_get");
    reveal_strlit("jsonLength");
    reveal_strlit("json_length");
    reveal_strlit("jsonFree");
    reveal_strlit("json_free");
    reveal_strlit("termRawMode");
    reveal_strlit("term_raw_mode");
    reveal_strlit("termCols");
    reveal_strlit("term_cols");
    reveal_with_fuel(lower_from, 30);
    assert(lower_from("json_parse"@, 0));
    lemma_lower_from("json_parse"@, 0);
    assert(lower_from("json_get"@, 0));
    lemma_lower_from("json_get"@, 0);
    assert(lower_from("json_length"@, 0));
    lemma_lower_from("json_length"@, 0);
    assert(lower_from("json_free"@, 0));
    lemma_lower_from("json_free"@, 0);
    assert(lower_from("term_raw_mode"@, 0));
    lemma_lower_from("term_raw_mode"@, 0);
    assert(lower_from("term_cols"@, 0));
    lemma_lower_from("term_cols"@, 0);
    assert(row_ok(builtin_rows()[30]));
    assert(row_ok(builtin_rows()[31]));
    assert(row_ok(builtin_rows()[32]));
    assert(row_ok(builtin_rows()[33]));
    assert(row_ok(builtin_rows()[34]));
    assert(row_ok(builtin_rows()[35]));
}

/// Rows 36 to 41 of the table are well formed.
proof fn lemma_rows_ok_6()
    ensures
        forall|i: int| 36 <= i < 42 ==> row_ok(#[trigger] builtin_rows()[i]),
{
    reveal_strlit("termRows");
    reveal_strlit("term_rows");
    reveal_strlit("termReadKey");
    reveal_strlit("term_read_key");
    reveal_strlit("termClear");
    reveal_strlit("term_clear");
    reveal_strlit("termMoveCursor");
    reveal_strlit("term_move_cursor");
    reveal_strlit("termHideCursor");
    reveal_strlit("term_hide_cursor");
    reveal_strlit("termShowCursor");
    reveal_strlit("term_show_cursor");
    reveal_with_fuel(lower_from, 30);
    assert(lower_from("term_rows"@, 0));
    lemma_lower_from("term_rows"@, 0);
    assert(lower_from("term_read_key"@, 0));
    lemma_lower_from("term_read_key"@, 0);
    assert(lower_from("term_clear"@, 0));
    lemma_lower_from("term_clear"@, 0);
    assert(lower_from("term_move_cursor"@, 0));
    lemma_lower_from("term_move_cursor"@, 0);
    assert(lower_from("term_hide_cursor"@, 0));
    lemma_lower_from("term_hide_cursor"@, 0);
    assert(lower_from("term_show_cursor"@, 0));
    lemma_lower_from("term_show_cursor"@, 0);
    assert(row_ok(builtin_rows()[36]));
    assert(row_ok(builtin_rows()[37]));
    assert(row_ok(builtin_rows()[38]));
    assert(row_ok(builtin_rows()[39]));
    assert(row_ok(builtin_rows()[40]));
    assert(row_ok(builtin_rows()[41]));
}

/// Every C symbol the table lowers to is lower case and differs from its
/// Osprey name: a camel-case Osprey name never reaches LLVM as is.
pub proof fn law_c_names_lower_case(name: Seq<char>)
    ensures
        builtin(name) matches Some((c, _, _)) ==> lower_case(c) && c != name,
{
    lemma_rows_ok_0();
    lemma_rows_ok_1();
    lemma_rows_ok_2();
    lemma_rows_ok_3();
    lemma_rows_ok_4();
    lemma_rows_ok_5();
    lemma_rows_ok_6();
    lemma_found_row(builtin_rows(), name);
    if let Some((c, ps, ret)) = builtin(name) {
        let i = choose|i: int| 0 <= i < builtin_rows().len() && #[trigger] builtin_rows()[i] == (name, c, ps, ret);
        assert(row_ok(builtin_rows()[i]));
    }
}

/// No row of `rows` before the `k`-th is named `name`.
pub open spec fn absent_before(rows: Seq<BuiltinRow>, name: Seq<char>, k: int) -> bool
    decreases k,
{
    if k <= 0 {
        true
    } else {
        rows[k - 1].0 != name && absent_before(rows, name, k - 1)
    }
}

/// The rows before `k` checked one by one are all named otherwise.
proof fn lemma_absent_before(rows: Seq<BuiltinRow>, name: Seq<char>, k: int)
    requires
        absent_before(rows, name, k),
    ensures
        forall|j: int| 0 <= j < k ==> #[trigger] rows[j].0 != name,
    decreases k,
{
    if k > 0 {
        lemma_absent_before(rows, name, k - 1);
    }
}

/// A name first found at row `k` looks up row `k`.
proof fn lemma_find_at(rows: Seq<BuiltinRow>, k: int)
    requires
        0 <= k < rows.len(),
        forall|j: int| 0 <= j < k ==> #[trigger] rows[j].0 != rows[k].0,
    ensures
        find_row(rows, rows[k].0) == Some((rows[k].1, rows[k].2, rows[k].3)),
    decreases k,
{
    if k > 0 {
        assert forall|j: int| 0 <= j < k - 1 implies #[trigger] rows.drop_first()[j].0 != rows.drop_first()[k - 1].0 by {
            assert(rows.drop_first()[j] == rows[j + 1]);
        }
        lemma_find_at(rows.drop_first(), k - 1);
        assert(rows[0].0 != rows[k].0);
    }
}

/// The builtins whose C call can fail give a `Result`: a negative status or
/// a null string is an `Error`, never a plain value. Reading and writing a
/// file in particular: `readFile` is `Result<string, _>` with the fallback
/// reason `File read error`, `writeFile` is `Result<int, _>`.
pub proof fn law_fallible_builtins_give_results()
    ensures
        builtin("randomBelow"@) matches Some((_, _, ret)) && (ret == Ret::ResultInt || ret is ResultStr),
        builtin("readFile"@) matches Some((_, _, ret)) && (ret == Ret::ResultInt || ret is ResultStr),
        builtin("writeFile"@) matches Some((_, _, ret)) && (ret == Ret::ResultInt || ret is ResultStr),
        builtin("spawnProcess"@) matches Some((_, _, ret)) && (ret == Ret::ResultInt || ret is ResultStr),
        builtin("httpGetResponse"@) matches Some((_, _, ret)) && (ret == Ret::ResultInt || ret is ResultStr),
        builtin("httpResponseBody"@) matches Some((_, _, ret)) && (ret == Ret::ResultInt || ret is ResultStr),
        builtin("httpResponseHeader"@) matches Some((_, _, ret)) && (ret == Ret::ResultInt || ret is ResultStr),
        builtin("httpResponseFree"@) matches Some((_, _, ret)) && (ret == Ret::ResultInt || ret is ResultStr),
        builtin("jsonParse"@) matches Some((_, _, ret)) && (ret == Ret::ResultInt || ret is ResultStr),
        builtin("jsonGet"@) matches Some((_, _, ret)) && (ret == Ret::ResultInt || ret is ResultStr),
        builtin("jsonFree"@) matches Some((_, _, ret)) && (ret == Ret::ResultInt || ret is ResultStr),
        builtin("termReadKey"@) matches Some((_, _, ret)) && (ret == Ret::ResultInt || ret is ResultStr),
        builtin("readFile"@) == Some(("read_file"@, seq![LType::Str], Ret::ResultStr(Some("File read error")))),
        builtin("writeFile"@) == Some(("write_file"@, seq![LType::Str, LType::Str], Ret::ResultInt)),
{
    reveal_strlit("random");
    reveal_strlit("randomBelow");
    reveal_strlit("input");
    reveal_strlit("readFile");
    reveal_strlit("writeFile");
    reveal_strlit("spawnProcess");
    reveal_strlit("awaitProcess");
    reveal_strlit("cleanupProcess");
    reveal_strlit("sleep");
    reveal_strlit("httpCreateServer");
    reveal_strlit("httpListen");
    reveal_strlit("httpStopServer");
    reveal_strlit("httpCreateClient");
    reveal_strlit("httpGet");
    reveal_strlit("httpPost");
    reveal_strlit("httpPut");
    reveal_strlit("httpDelete");
    reveal_strlit("httpCloseClient");
    reveal_strlit("httpGetResponse");
    reveal_strlit("httpResponseStatus");
    reveal_strlit("httpResponseBody");
    reveal_strlit("httpResponseHeader");
    reveal_strlit("httpResponseFree");
    reveal_strlit("websocketCreateServer");
    reveal_strlit("websocketServerListen");
    reveal_strlit("websocketServerBroadcast");
    reveal_strlit("websocketKeepAlive");
    reveal_strlit("websocketConnect");
    reveal_strlit("websocketSend");
    reveal_strlit("websocketClose");
    reveal_strlit("jsonParse");
    reveal_strlit("jsonGet");
    reveal_strlit("jsonLength");
    reveal_strlit("jsonFree");
    reveal_strlit("termRawMode");
    reveal_strlit("termCols");
    reveal_strlit("termRows");
    reveal_strlit("termReadKey");
    reveal_strlit("termClear");
    reveal_strlit("termMoveCursor");
    reveal_strlit("termHideCursor");
    reveal_strlit("termShowCursor");
    let rows = builtin_rows();
    reveal_with_fuel(absent_before, 45);
    assert(rows[1].0 == "randomBelow"@);
    assert(absent_before(rows, "randomBelow"@, 1));
    lemma_absent_before(rows, "randomBelow"@, 1);
    lemma_find_at(rows, 1);
    assert(rows[3].0 == "readFile"@);
    assert(absent_before(rows, "readFile"@, 3));
    lemma_absent_before(rows, "readFile"@, 3);
    lemma_find_at(rows, 3);
    assert(rows[4].0 == "writeFile"@);
    assert(absent_before(rows, "writeFile"@, 4));
    lemma_absent_before(rows, "writeFile"@, 4);
    lemma_find_at(rows, 4);
    assert(rows[5].0 == "spawnProcess"@);
    assert(absent_before(rows, "spawnProcess"@, 5));
    lemma_absent_before(rows, "spawnProcess"@, 5);
    lemma_find_at(rows, 5);
    assert(rows[18].0 == "httpGetResponse"@);
    assert(rows[17].0[4] != "httpGetResponse"@[4]);
    assert(absent_before(rows, "httpGetResponse"@, 18));
    lemma_absent_before(rows, "httpGetResponse"@, 18);
    lemma_find_at(rows, 18);
    assert(rows[20].0 == "httpResponseBody"@);
    assert(rows[9].0[4] != "httpResponseBody"@[4]);
    assert(rows[12].0[4] != "httpResponseBody"@[4]);
    assert(absent_before(rows, "httpResponseBody"@, 20));
    lemma_absent_before(rows, "httpResponseBody"@, 20);
    lemma_find_at(rows, 20);
    assert(rows[21].0 == "httpResponseHeader"@);
    assert(rows[19].0[12] != "httpResponseHeader"@[12]);
    assert(absent_before(rows, "httpResponseHeader"@, 21));
    lemma_absent_before(rows, "httpResponseHeader"@, 21);
    lemma_find_at(rows, 21);
    assert(rows[22].0 == "httpResponseFree"@);
    assert(rows[9].0[4] != "httpResponseFree"@[4]);
    assert(rows[12].0[4] != "httpResponseFree"@[4]);
    assert(rows[20].0[12] != "httpResponseFree"@[12]);
    assert(absent_before(rows, "httpResponseFree"@, 22));
    lemma_absent_before(rows, "httpResponseFree"@, 22);
    lemma_find_at(rows, 22);
    assert(rows[30].0 == "jsonParse"@);
    assert(rows[4].0[0] != "jsonParse"@[0]);
    assert(absent_before(rows, "jsonParse"@, 30));
    lemma_absent_before(rows, "jsonParse"@, 30);
    lemma_find_at(rows, 30);
    assert(rows[31].0 == "jsonGet"@);
    assert(rows[13].0[0] != "jsonGet"@[0]);
    assert(rows[15].0[0] != "jsonGet"@[0]);
    assert(absent_before(rows, "jsonGet"@, 31));
    lemma_absent_before(rows, "jsonGet"@, 31);
    lemma_find_at(rows, 31);
    assert(rows[33].0 == "jsonFree"@);
    assert(rows[3].0[0] != "jsonFree"@[0]);
    assert(rows[14].0[0] != "jsonFree"@[0]);
    assert(absent_before(rows, "jsonFree"@, 33));
    lemma_absent_before(rows, "jsonFree"@, 33);
    lemma_find_at(rows, 33);
    assert(rows[37].0 == "termReadKey"@);
    assert(rows[1].0[0] != "termReadKey"@[0]);
    assert(rows[34].0[5] != "termReadKey"@[5]);
    assert(absent_before(rows, "termReadKey"@, 37));
    lemma_absent_before(rows, "termReadKey"@, 37);
    lemma_find_at(rows, 37);
}

} // verus!
