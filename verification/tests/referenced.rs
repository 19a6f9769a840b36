use osprey_codegen::ast::{Expr, Parameter, Program, Stmt};
use osprey_codegen::referenced_idents;

fn call(f: &str, arg: &str) -> Expr {
    Expr::Call {
        function: Box::new(Expr::Identifier(f.to_string())),
        arguments: vec![Expr::Identifier(arg.to_string())],
        named_arguments: vec![],
    }
}

#[test]
fn referenced_idents_walks_lets_funcs_and_nested_modules() {
    // type Ignored = A | B
    // module M {
    //   fn helper(x) = httpGet(url)
    //   let y = readFile(path)
    // }
    // let z = spawnProcess(cmd)
    let program = Program {
        statements: vec![
            Stmt::Other,
            Stmt::Module {
                name: "M".to_string(),
                body: vec![
                    Stmt::Function {
                        name: "helper".to_string(),
                        parameters: vec![Parameter { name: "x".to_string() }],
                        body: call("httpGet", "url"),
                        position: None,
                    },
                    Stmt::Let { name: "y".to_string(), mutable: false, value: call("readFile", "path"), position: None },
                ],
            },
            Stmt::Let { name: "z".to_string(), mutable: false, value: call("spawnProcess", "cmd"), position: None },
        ],
    };
    let idents = referenced_idents(&program);
    assert!(idents.contains("httpGet"));
    assert!(idents.contains("readFile"));
    assert!(idents.contains("spawnProcess"));
}

#[test]
fn referenced_idents_lists_every_reference_once_in_order() {
    let program = Program {
        statements: vec![
            Stmt::Namespace {
                name: "N".to_string(),
                body: vec![Stmt::Expr { value: call("readFile", "path"), position: None }],
            },
            Stmt::Assignment { name: "a".to_string(), value: call("readFile", "other"), position: None },
        ],
    };
    let idents = referenced_idents(&program);
    assert_eq!(idents.as_slice().to_vec(), vec!["other", "path", "readFile"]);
    assert_eq!(idents.len(), 3);
}
