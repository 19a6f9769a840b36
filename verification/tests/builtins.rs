use osprey_codegen::expr::{checked_intrinsic, cmp_code};
use osprey_codegen::extern_call::{lookup, Ret};
use osprey_codegen::pattern::result_join_inner;
use osprey_codegen::{CodegenError, LType, Value};

#[test]
fn checked_builtins_pick_their_intrinsic() {
    assert_eq!(checked_intrinsic("checkedAdd"), "sadd");
    assert_eq!(checked_intrinsic("checkedSub"), "ssub");
    assert_eq!(checked_intrinsic("checkedMul"), "smul");
}

#[test]
fn comparison_codes() {
    let ops = ["==", "!=", "<", "<=", ">", ">="];
    let ints = ["eq", "ne", "slt", "sle", "sgt", "sge"];
    let floats = ["oeq", "one", "olt", "ole", "ogt", "oge"];
    for i in 0..ops.len() {
        assert_eq!(cmp_code(ops[i], false), ints[i]);
        assert_eq!(cmp_code(ops[i], true), floats[i]);
    }
}

#[test]
fn runtime_builtins_map_to_c_symbols() {
    let s = lookup("readFile").unwrap();
    assert_eq!(s.cname, "read_file");
    assert_eq!(s.params, vec![LType::Str]);
    assert_eq!(s.ret, Ret::ResultStr(Some("File read error")));
    let s = lookup("httpPost").unwrap();
    assert_eq!(s.cname, "http_post");
    assert_eq!(s.params, vec![LType::I64, LType::Str, LType::Str, LType::Str]);
    assert_eq!(s.ret, Ret::Int);
    let s = lookup("sleep").unwrap();
    assert_eq!(s.cname, "fiber_sleep");
    assert_eq!(s.ret, Ret::StatusUnit);
    let s = lookup("termShowCursor").unwrap();
    assert_eq!(s.cname, "term_show_cursor");
    assert!(s.params.is_empty());
    let s = lookup("spawnProcess").unwrap();
    assert_eq!(s.params, vec![LType::Str, LType::Ptr]);
    assert_eq!(s.ret, Ret::ResultInt);
    assert!(lookup("print").is_none());
    assert!(lookup("dbQuery").is_none());
}

fn arm(v: Value) -> (Value, String) {
    (v, "L0".to_string())
}

#[test]
fn result_match_arms_join_on_one_success_layout() {
    let placeholder = Value::result("%e", LType::I64).with_result_inner_placeholder();
    let arms = vec![arm(placeholder), arm(Value::result("%s", LType::Str))];
    assert_eq!(result_join_inner(&arms), Ok(Some(LType::Str)));
    let only_placeholders = vec![arm(Value::result("%e", LType::I1).with_result_inner_placeholder())];
    assert_eq!(result_join_inner(&only_placeholders), Ok(Some(LType::I1)));
    let mixed = vec![arm(Value::result("%a", LType::I64)), arm(Value::new("%b", LType::I64))];
    assert_eq!(result_join_inner(&mixed), Ok(None));
    assert_eq!(result_join_inner(&[]), Ok(None));
    let clash = vec![
        arm(Value::result("%a", LType::I64)),
        arm(Value::result("%b", LType::I64)),
        arm(Value::result("%c", LType::Double)),
    ];
    assert_eq!(
        result_join_inner(&clash),
        Err(CodegenError::Invalid(
            "match Result arms disagree on success type: `i64` and `double`".to_string()
        ))
    );
}

#[test]
fn every_c_symbol_is_lower_case_and_renamed() {
    let names = [
        "random", "randomBelow", "input", "readFile", "writeFile", "spawnProcess", "awaitProcess",
        "cleanupProcess", "sleep", "httpCreateServer", "httpListen", "httpStopServer",
        "httpCreateClient", "httpGet", "httpPost", "httpPut", "httpDelete", "httpCloseClient",
        "httpGetResponse", "httpResponseStatus", "httpResponseBody", "httpResponseHeader",
        "httpResponseFree", "websocketCreateServer", "websocketServerListen",
        "websocketServerBroadcast", "websocketKeepAlive", "websocketConnect", "websocketSend",
        "websocketClose", "jsonParse", "jsonGet", "jsonLength", "jsonFree", "termRawMode",
        "termCols", "termRows", "termReadKey", "termClear", "termMoveCursor", "termHideCursor",
        "termShowCursor",
    ];
    for n in names {
        let s = lookup(n).expect("a builtin");
        assert_ne!(s.cname, n);
        assert!(!s.cname.chars().any(|c| c.is_ascii_uppercase()));
    }
    assert!(lookup("listLength").is_none());
}
