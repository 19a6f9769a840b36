use osprey_codegen::arc::{
    bind_owned, consume_fresh, consume_into_store, drop_frame_inline, dup_store, epilogue, move_phi_owners,
    own, pop_frame, release_operand, retain_val,
};
use osprey_codegen::builder::Codegen;
use osprey_codegen::{LType, Value};

fn function() -> Codegen {
    let mut cg = Codegen::new();
    cg.begin_function("f", None);
    cg
}

fn body(cg: &mut Codegen) -> String {
    cg.finish_function("void", "f", &[]);
    let ir = cg.render();
    let start = ir.find("define void @f()").expect("the function");
    let end = ir[start..].find("\n}").expect("its end") + start;
    ir[start..end].to_string()
}

#[test]
fn an_owned_value_is_spilled_and_released_at_region_end() {
    let mut cg = function();
    cg.ledger_mut().push_frame();
    let v = Value::new("%h", LType::Ptr);
    own(&mut cg, &v);
    pop_frame(&mut cg);
    let text = body(&mut cg);
    assert_eq!(
        text,
        "define void @f() #0 {\nentry:\n  %arc.s0 = alloca i8*\n  store i8* null, i8** %arc.s0\n  store i8* %h, i8** %arc.s0\n  %r0 = load i8*, i8** %arc.s0\n  call void @osp_release(i8* %r0)\n  store i8* null, i8** %arc.s0"
    );
}

#[test]
fn literals_and_scalars_are_never_owned() {
    let mut cg = function();
    let lit = cg.string_constant("x");
    own(&mut cg, &lit);
    own(&mut cg, &Value::new("%n", LType::I64));
    own(&mut cg, &Value::new("null", LType::Str));
    assert_eq!(cg.ledger().frame_mark(), 0);
    let text = body(&mut cg);
    assert!(!text.contains("arc.s"));
}

#[test]
fn regions_release_newest_first() {
    let mut cg = function();
    cg.ledger_mut().push_frame();
    own(&mut cg, &Value::new("%a", LType::Str));
    own(&mut cg, &Value::new("%b", LType::Str));
    pop_frame(&mut cg);
    let text = body(&mut cg);
    let b = text.find("load i8*, i8** %arc.s1").unwrap();
    let a = text.find("load i8*, i8** %arc.s0").unwrap();
    assert!(b < a);
}

#[test]
fn a_typed_block_is_cast_to_i8_before_it_is_spilled() {
    let mut cg = function();
    let r = Value::result("%res", LType::I64);
    own(&mut cg, &r);
    let text = body(&mut cg);
    assert!(text.contains(
        "  %r0 = bitcast { i64, i8, i8* }* %res to i8*\n  store i8* %r0, i8** %arc.s0"
    ));
}

#[test]
fn a_fresh_pure_owner_is_retired_as_unique_at_its_unwrap() {
    let mut cg = function();
    let v = Value::new("%p", LType::Ptr);
    own(&mut cg, &v);
    cg.ledger_mut().mark_pure_scalar("%p");
    consume_fresh(&mut cg, &v);
    assert_eq!(cg.ledger().frame_mark(), 0);
    let text = body(&mut cg);
    assert!(text.contains("  call void @osp_release_unique(i8* %p)\n  store i8* null, i8** %arc.s0"));
    let ir = cg.render();
    assert!(ir.contains("declare void @osp_release_unique(i8* allocptr noundef)"));
}

#[test]
fn an_impure_owner_is_not_retired_early() {
    let mut cg = function();
    let v = Value::new("%p", LType::Ptr);
    own(&mut cg, &v);
    consume_fresh(&mut cg, &v);
    assert_eq!(cg.ledger().frame_mark(), 1);
    assert!(!body(&mut cg).contains("release_unique"));
}

#[test]
fn a_fresh_owner_moves_into_a_store_without_a_dup() {
    let mut cg = function();
    own(&mut cg, &Value::new("%p", LType::Ptr));
    assert!(consume_into_store(&mut cg, "%p"));
    assert!(!consume_into_store(&mut cg, "%p"));
    dup_store(&mut cg, "i8*", "%q");
    dup_store(&mut cg, "{ i64 }*", "%blk");
    dup_store(&mut cg, "i64", "%n");
    dup_store(&mut cg, "i8*", "null");
    let text = body(&mut cg);
    assert!(text.contains(
        "  store i8* null, i8** %arc.s0\n  call void @osp_retain(i8* %q)\n  %r0 = bitcast { i64 }* %blk to i8*\n  call void @osp_retain(i8* %r0)"
    ));
    assert_eq!(text.matches("osp_retain").count(), 2);
}

#[test]
fn the_epilogue_moves_an_owned_return_and_retains_a_borrowed_one() {
    let mut cg = function();
    let mine = Value::new("%mine", LType::Str);
    own(&mut cg, &mine);
    own(&mut cg, &Value::new("%tmp", LType::Str));
    epilogue(&mut cg, Some(&mine));
    let text = body(&mut cg);
    // the returned owner is not released; the other one is
    assert!(!text.contains("call void @osp_retain"));
    assert_eq!(text.matches("call void @osp_release").count(), 1);
    assert!(text.contains("load i8*, i8** %arc.s1"));

    let mut cg = function();
    own(&mut cg, &Value::new("%tmp", LType::Str));
    epilogue(&mut cg, Some(&Value::new("%param", LType::Str)));
    let text = body(&mut cg);
    let retain = text.find("call void @osp_retain(i8* %param)").unwrap();
    let release = text.find("call void @osp_release(").unwrap();
    assert!(retain < release);
    assert_eq!(cg.ledger().frame_mark(), 0);
}

#[test]
fn a_let_moves_its_owner_to_the_parent_region_or_retains_a_borrow() {
    let mut cg = function();
    cg.ledger_mut().push_frame();
    own(&mut cg, &Value::new("%fresh", LType::Str));
    bind_owned(&mut cg, "x", &Value::new("%fresh", LType::Str), Some(1));
    bind_owned(&mut cg, "y", &Value::new("%borrowed", LType::Str), Some(1));
    pop_frame(&mut cg);
    assert_eq!(cg.ledger().owner_names(), ["x", "y"]);
    let text = body(&mut cg);
    assert!(text.contains("  call void @osp_retain(i8* %borrowed)\n  store i8* %borrowed, i8** %arc.s1"));
    assert!(!text.contains("osp_release"));
}

#[test]
fn a_phi_of_fresh_arm_owners_is_one_owner() {
    let mut cg = function();
    let mark = cg.ledger().frame_mark();
    own(&mut cg, &Value::new("%a", LType::Ptr));
    own(&mut cg, &Value::new("%b", LType::Ptr));
    let incoming = vec!["%a".to_string(), "%b".to_string()];
    move_phi_owners(&mut cg, &incoming, &Value::new("%phi", LType::Ptr), mark);
    assert_eq!(cg.ledger().frame_mark(), 1);
    let text = body(&mut cg);
    assert!(text.contains("store i8* %phi, i8** %arc.s2"));
}

#[test]
fn an_early_exit_releases_without_closing_the_region() {
    let mut cg = function();
    own(&mut cg, &Value::new("%a", LType::Str));
    drop_frame_inline(&mut cg);
    assert_eq!(cg.ledger().frame_mark(), 1);
    release_operand(&mut cg, "%old");
    retain_val(&mut cg, &Value::new("%v", LType::Any));
    let text = body(&mut cg);
    assert!(text.contains("  %r0 = load i8*, i8** %arc.s0\n  call void @osp_release(i8* %r0)\n  store i8* null, i8** %arc.s0\n  call void @osp_release(i8* %old)\n  call void @osp_retain(i8* %v)"));
}
