use osprey_codegen::ast::{Expr, HandlerArm, Stmt};
use osprey_codegen::effects::{captured_mut_vars, captured_mut_vars_in_stmts, ArmCap, OpSig};
use osprey_codegen::{LType, Value};

fn id(n: &str) -> Expr {
    Expr::Identifier(n.to_string())
}

fn let_(name: &str, mutable: bool, value: Expr) -> Stmt {
    Stmt::Let { name: name.to_string(), mutable, value, position: None }
}

/// handle State { get() => count  set(v) => { count = v  total } } in run(limit)
fn state_handler() -> Expr {
    Expr::Handler {
        effect: "State".to_string(),
        arms: vec![
            HandlerArm { operation: "get".to_string(), params: vec![], body: id("count") },
            HandlerArm {
                operation: "set".to_string(),
                params: vec!["v".to_string()],
                body: Expr::Block {
                    statements: vec![Stmt::Assignment {
                        name: "count".to_string(),
                        value: id("v"),
                        position: None,
                    }],
                    value: Some(Box::new(id("total"))),
                },
            },
        ],
        body: Box::new(Expr::Call {
            function: Box::new(id("run")),
            arguments: vec![id("limit")],
            named_arguments: vec![],
        }),
    }
}

#[test]
fn only_mutables_a_handler_arm_references_become_cells() {
    // { mut count = 0  let total = 1  mut limit = 2  <handler> }
    let body = Expr::Block {
        statements: vec![
            let_("count", true, Expr::Integer(0)),
            let_("total", false, Expr::Integer(1)),
            let_("limit", true, Expr::Integer(2)),
        ],
        value: Some(Box::new(state_handler())),
    };
    let cells = captured_mut_vars(&body);
    assert_eq!(cells.as_slice().to_vec(), vec!["count"]);
}

#[test]
fn an_arm_parameter_is_not_a_capture() {
    // { mut v = 0  <handler> }: `v` in the set arm is its own parameter;
    // `count`, assigned in that arm and read in the other, still is one.
    let body = Expr::Block {
        statements: vec![let_("v", true, Expr::Integer(0))],
        value: Some(Box::new(state_handler())),
    };
    let cells = captured_mut_vars(&body);
    assert!(!cells.contains("v"));
    assert_eq!(cells.as_slice().to_vec(), vec!["count"]);
}

#[test]
fn top_level_statements_are_scanned_too() {
    let stmts = vec![
        let_("count", true, Expr::Integer(0)),
        Stmt::Expr { value: state_handler(), position: None },
    ];
    assert_eq!(captured_mut_vars_in_stmts(&stmts).as_slice().to_vec(), vec!["count"]);
    assert!(captured_mut_vars_in_stmts(&stmts[..1]).as_slice().is_empty());
}

#[test]
fn a_handler_nested_in_a_lambda_argument_is_found() {
    // { mut acc = 0  forEach(xs, fn(x) => handle Log { log(m) => acc } in go()) }
    let nested = Expr::Lambda {
        parameters: vec![],
        body: Box::new(Expr::Handler {
            effect: "Log".to_string(),
            arms: vec![HandlerArm {
                operation: "log".to_string(),
                params: vec!["m".to_string()],
                body: id("acc"),
            }],
            body: Box::new(id("go")),
        }),
    };
    let body = Expr::Block {
        statements: vec![
            let_("acc", true, Expr::Integer(0)),
            Stmt::Expr {
                value: Expr::Call {
                    function: Box::new(id("forEach")),
                    arguments: vec![id("xs"), nested],
                    named_arguments: vec![],
                },
                position: None,
            },
        ],
        value: None,
    };
    assert_eq!(captured_mut_vars(&body).as_slice().to_vec(), vec!["acc"]);
}

#[test]
fn default_signatures_take_and_return_words() {
    let sig = OpSig::default_for_arity(2);
    assert_eq!(sig.params, vec![LType::I64, LType::I64]);
    assert_eq!(sig.ret_ty(), "i64");
    assert_eq!(sig.fn_ptr_ty(), "i64 (i8*, i64, i64)*");
    assert!(!sig.ret_erased);
    assert_eq!(sig.param_erased, vec![false, false]);
    let zero = OpSig::default_for_arity(0);
    assert_eq!(zero.fn_ptr_ty(), "i64 (i8*)*");
}

#[test]
fn result_signatures_return_the_block_pointer() {
    let sig = OpSig {
        params: vec![LType::Str],
        ret: LType::Ptr,
        ret_result_inner: Some(LType::I64),
        param_erased: vec![false],
        ret_erased: false,
    };
    assert_eq!(sig.ret_ty(), "{ i64, i8, i8* }*");
    assert_eq!(sig.fn_ptr_ty(), "{ i64, i8, i8* }* (i8*, i8*)*");
}

#[test]
fn env_slots_carry_cells_as_pointers() {
    let cell = ArmCap::Cell {
        name: "count".to_string(),
        ptr: "%cell".to_string(),
        pointee: LType::I64,
        osp_ty: None,
    };
    assert_eq!(cell.slot_ty(), "i8*");
    let val = ArmCap::Val { name: "n".to_string(), val: Value::new("%n", LType::Double) };
    assert_eq!(val.slot_ty(), "double");
}
