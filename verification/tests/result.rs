use osprey_codegen::aggregate::{load_field, store_field, store_tag};
use osprey_codegen::arc::own;
use osprey_codegen::builder::Codegen;
use osprey_codegen::result::{load_disc, load_errmsg, load_value, open_result_branch, unwrap, NO_MSG};
use osprey_codegen::{LType, Value};

fn function() -> Codegen {
    let mut cg = Codegen::new();
    cg.begin_function("f", None);
    cg
}

fn body(cg: &mut Codegen) -> String {
    cg.finish_function("void", "f", &[]);
    let ir = cg.render();
    let start = ir.find("define void @f()").expect("the function");
    let end = ir[start..].find("\n}").expect("its end") + start;
    ir[start..end].to_string()
}

#[test]
fn a_result_block_reads_its_three_slots() {
    let mut cg = function();
    let r = Value::result("%res", LType::Str);
    assert_eq!(load_disc(&mut cg, &r), "%r1");
    let payload = load_value(&mut cg, &r);
    assert_eq!((payload.operand.as_str(), payload.ty), ("%r3", LType::Str));
    let msg = load_errmsg(&mut cg, &r);
    assert_eq!((msg.operand.as_str(), msg.ty), ("%r5", LType::Str));
    let text = body(&mut cg);
    assert!(text.contains(
        "  %r0 = getelementptr { i8*, i8, i8* }, { i8*, i8, i8* }* %res, i32 0, i32 1\n  %r1 = load i8, i8* %r0\n  %r2 = getelementptr { i8*, i8, i8* }, { i8*, i8, i8* }* %res, i32 0, i32 0\n  %r3 = load i8*, i8** %r2\n  %r4 = getelementptr { i8*, i8, i8* }, { i8*, i8, i8* }* %res, i32 0, i32 2\n  %r5 = load i8*, i8** %r4"
    ));
}

#[test]
fn a_plain_value_reads_as_an_error_without_a_message() {
    let mut cg = function();
    let v = Value::new("%x", LType::I64);
    assert_eq!(load_disc(&mut cg, &v), "1");
    assert_eq!(load_errmsg(&mut cg, &v).operand, NO_MSG);
    let unit = load_value(&mut cg, &v);
    assert_eq!((unit.operand.as_str(), unit.ty), ("0", LType::I64));
    let same = unwrap(&mut cg, Value::new("%x", LType::I64));
    assert_eq!(same.operand, "%x");
    assert!(!body(&mut cg).contains("%r0"));
}

#[test]
fn the_payload_keeps_its_owner_tag() {
    let mut cg = function();
    let r = Value::result("%res", LType::Ptr).with_payload_owner(Some("Point".to_string()));
    let payload = unwrap(&mut cg, r);
    assert_eq!(payload.osp_ty.as_deref(), Some("Point"));
    assert_eq!(payload.ty, LType::Ptr);
}

#[test]
fn a_fresh_pure_result_is_retired_at_its_unwrap() {
    let mut cg = function();
    let r = Value::result("%res", LType::I64);
    own(&mut cg, &r);
    cg.ledger_mut().mark_pure_scalar("%res");
    let payload = unwrap(&mut cg, r);
    assert_eq!(payload.operand, "%r2");
    let text = body(&mut cg);
    assert!(text.contains(
        "  %r2 = load i64, i64* %r1\n  %r3 = bitcast { i64, i8, i8* }* %res to i8*\n  call void @osp_release_unique(i8* %r3)\n  store i8* null, i8** %arc.s0"
    ));
}

#[test]
fn branching_on_a_result_opens_its_success_block() {
    let mut cg = function();
    let r = Value::result("%res", LType::I64);
    let (ok, err, end) = open_result_branch(&mut cg, &r);
    assert_eq!((ok.as_str(), err.as_str(), end.as_str()), ("L0", "L1", "L2"));
    assert_eq!(cg.cur_block(), "L0");
    let text = body(&mut cg);
    assert!(text.ends_with("  %r2 = icmp eq i8 %r1, 0\n  br i1 %r2, label %L0, label %L1\nL0:"));
}

#[test]
fn stores_dup_borrowed_pointers_and_move_fresh_owners() {
    let mut cg = function();
    store_tag(&mut cg, "{ i64, i8* }", "%obj", -2);
    store_field(&mut cg, "{ i64, i8* }", "%obj", 1, LType::Str, "%borrowed");
    own(&mut cg, &Value::new("%fresh", LType::Str));
    store_field(&mut cg, "{ i64, i8* }", "%obj", 1, LType::Str, "%fresh");
    store_field(&mut cg, "{ i64, i8* }", "%obj", 1, LType::Str, "null");
    let loaded = load_field(&mut cg, "{ i64, i8* }", "%obj", 1, LType::Str);
    assert_eq!(loaded, "%r5");
    let text = body(&mut cg);
    assert!(text.contains("  %r0 = getelementptr { i64, i8* }, { i64, i8* }* %obj, i32 0, i32 0\n  store i64 -2, i64* %r0\n"));
    assert!(text.contains("  call void @osp_retain(i8* %borrowed)\n  %r1 = getelementptr { i64, i8* }, { i64, i8* }* %obj, i32 0, i32 1\n  store i8* %borrowed, i8** %r1\n"));
    assert!(text.contains("  store i8* null, i8** %arc.s0\n  %r2 = getelementptr { i64, i8* }, { i64, i8* }* %obj, i32 0, i32 1\n  store i8* %fresh, i8** %r2\n"));
    assert!(text.contains("  store i8* null, i8** %r3\n  %r4 = getelementptr"));
    assert_eq!(text.matches("osp_retain").count(), 1);
    assert_eq!(cg.ledger().frame_mark(), 0);
}
