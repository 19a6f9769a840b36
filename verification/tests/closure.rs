use osprey_codegen::ast::{Expr, Parameter};
use osprey_codegen::builder::Scopes;
use osprey_codegen::closure::{
    capture_list, cell_struct_ty, fnptr_const, free_names, specialisation_key, spelling,
    spelling_with_env, type_spellings, Capture, ParamSig,
};
use osprey_codegen::monofn::{instantiation_key, param_of, slot_spelling, unresolved};
use osprey_codegen::{CodegenError, LType, Value};

fn sig(params: Vec<LType>, ret: LType, inner: Option<LType>) -> (Vec<LType>, LType, Option<LType>) {
    (params, ret, inner)
}

fn id(n: &str) -> Expr {
    Expr::Identifier(n.to_string())
}

#[test]
fn closure_signatures_take_the_env_first() {
    let s = sig(vec![LType::I64, LType::Str], LType::Ptr, Some(LType::Double));
    let (ret, params) = spelling(&s);
    assert_eq!(ret, "{ double, i8, i8* }*");
    assert_eq!(params, "i64, i8*");
    let (ret, params) = spelling_with_env(&s);
    assert_eq!(ret, "{ double, i8, i8* }*");
    assert_eq!(params, "i8*, i64, i8*");
    let none = sig(vec![], LType::I1, None);
    assert_eq!(spelling_with_env(&none), ("i1".to_string(), "i8*".to_string()));
    assert_eq!(type_spellings(&[LType::I32, LType::Any]), vec!["i32", "i8*"]);
}

#[test]
fn specialisation_keys_name_the_whole_abi() {
    let s = sig(vec![LType::I64], LType::I64, None);
    assert_eq!(specialisation_key("map", &s), "map|i64(i8*, i64)");
    assert_eq!(fnptr_const("__closure_fn_3", &s), "bitcast (i64 (i8*, i64)* @__closure_fn_3 to i8*)");
    let t = sig(vec![LType::Double], LType::I64, None);
    assert_ne!(specialisation_key("map", &s), specialisation_key("map", &t));
}

#[test]
fn closure_cells_hold_the_fnptr_then_captures() {
    let caps = vec![
        Capture { name: "a".to_string(), val: Value::new("%a", LType::I64) },
        Capture { name: "r".to_string(), val: Value::result("%r", LType::Str) },
    ];
    assert_eq!(cell_struct_ty(&caps), "{ i8*, i64, { i8*, i8, i8* }* }");
    assert_eq!(cell_struct_ty(&[]), "{ i8* }");
}

#[test]
fn captures_are_the_free_names_bound_in_scope() {
    // fn(x) => add(x, y, z, w): y and z are bound outside, w is not.
    let parameters = vec![Parameter { name: "x".to_string() }];
    let body = Expr::Call {
        function: Box::new(id("add")),
        arguments: vec![id("x"), id("z"), id("y"), id("w")],
        named_arguments: vec![],
    };
    let mut scopes = Scopes::new();
    scopes.push_scope();
    scopes.bind("y", Value::new("%y", LType::I64));
    scopes.push_scope();
    scopes.bind("z", Value::new("%z", LType::Double));
    scopes.bind("x", Value::new("%x_outer", LType::I64));
    let caps = capture_list(&scopes, &parameters, &body);
    let got: Vec<(String, String)> = caps.iter().map(|c| (c.name.clone(), c.val.operand.clone())).collect();
    assert_eq!(got, vec![("y".to_string(), "%y".to_string()), ("z".to_string(), "%z".to_string())]);
    assert_eq!(free_names(&parameters, &body).as_slice().to_vec(), vec!["add", "w", "y", "z"]);
}

#[test]
fn instantiation_keys_follow_argument_representation() {
    let args = vec![Value::new("%a", LType::I64), Value::handle("%b", "Gpu#double"), Value::result("%c", LType::I1)];
    assert_eq!(slot_spelling(&args[0]), "i64::");
    assert_eq!(slot_spelling(&args[1]), "i8*:Gpu#double:");
    assert_eq!(slot_spelling(&args[2]), "i8*:Result:i1");
    assert_eq!(instantiation_key("handler", &args), "handler(i64::,i8*:Gpu#double:,i8*:Result:i1)");
    assert_eq!(instantiation_key("f", &[]), "f()");
    assert_eq!(param_of(&args[2]), ParamSig { ty: LType::Ptr, result_inner: Some(LType::I1), fiber: None });
    assert_eq!(
        unresolved("loop"),
        CodegenError::Unsupported(
            "`loop` is recursive and its return type is not inferred; annotate its return type so it is emitted as a real function".to_string()
        )
    );
}
