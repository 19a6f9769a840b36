use osprey_codegen::ast::{Expr, HandlerArm, MatchArm, Parameter, Pattern, Position, Program, Stmt};
use osprey_codegen::coverage::{counter_global, coverable_lines};

fn at(line: u32) -> Option<Position> {
    Some(Position { line, column: 0 })
}

fn id(n: &str) -> Expr {
    Expr::Identifier(n.to_string())
}

#[test]
fn functions_and_positioned_statements_are_coverable() {
    // fn main() = { let a = 1 (line 2)  match a { _ => { print(a) (line 4) } } }  (line 1)
    // module M { fn helper() = 0 (line 7) }
    // print(x) (line 9) with a lambda argument holding a statement on line 10
    // a declaration without a position contributes nothing
    let inner = Expr::Block {
        statements: vec![Stmt::Expr { value: id("a"), position: at(4) }],
        value: None,
    };
    let body = Expr::Block {
        statements: vec![Stmt::Let {
            name: "a".to_string(),
            mutable: false,
            value: Expr::Integer(1),
            position: at(2),
        }],
        value: Some(Box::new(Expr::Match {
            value: Box::new(id("a")),
            arms: vec![MatchArm { pattern: Pattern::Wildcard, body: inner }],
        })),
    };
    let lambda = Expr::Lambda {
        parameters: vec![Parameter { name: "v".to_string() }],
        body: Box::new(Expr::Block {
            statements: vec![Stmt::Expr { value: id("v"), position: at(10) }],
            value: None,
        }),
    };
    let program = Program {
        statements: vec![
            Stmt::Function {
                name: "main".to_string(),
                parameters: vec![],
                body,
                position: at(1),
            },
            Stmt::Module {
                name: "M".to_string(),
                body: vec![Stmt::Function {
                    name: "helper".to_string(),
                    parameters: vec![],
                    body: Expr::Integer(0),
                    position: at(7),
                }],
            },
            Stmt::Expr {
                value: Expr::Call {
                    function: Box::new(id("print")),
                    arguments: vec![lambda],
                    named_arguments: vec![],
                },
                position: at(9),
            },
            Stmt::Expr { value: id("quiet"), position: None },
            Stmt::Other,
        ],
    };
    let lines: Vec<u32> = coverable_lines(&program).into_iter().collect();
    assert_eq!(lines, vec![1, 2, 4, 7, 9, 10]);
}

#[test]
fn line_zero_counts_as_line_one_and_lines_are_counted_once() {
    let program = Program {
        statements: vec![
            Stmt::Expr { value: id("a"), position: at(0) },
            Stmt::Expr { value: id("b"), position: at(1) },
            Stmt::Assignment { name: "c".to_string(), value: id("d"), position: at(1) },
        ],
    };
    let lines: Vec<u32> = coverable_lines(&program).into_iter().collect();
    assert_eq!(lines, vec![1]);
}

#[test]
fn handler_arm_bodies_are_entered_but_plain_operands_are_not() {
    let handler = Expr::Handler {
        effect: "E".to_string(),
        arms: vec![HandlerArm {
            operation: "op".to_string(),
            params: vec![],
            body: Expr::Block {
                statements: vec![Stmt::Expr { value: id("x"), position: at(5) }],
                value: None,
            },
        }],
        body: Box::new(Expr::Block {
            statements: vec![Stmt::Expr { value: id("y"), position: at(6) }],
            value: None,
        }),
    };
    // A block under a binary operator is not entered.
    let hidden = Expr::Binary {
        op: "+".to_string(),
        left: Box::new(Expr::Block {
            statements: vec![Stmt::Expr { value: id("z"), position: at(8) }],
            value: None,
        }),
        right: Box::new(Expr::Integer(1)),
    };
    let program = Program {
        statements: vec![
            Stmt::Expr { value: handler, position: None },
            Stmt::Let { name: "h".to_string(), mutable: false, value: hidden, position: None },
        ],
    };
    let lines: Vec<u32> = coverable_lines(&program).into_iter().collect();
    assert_eq!(lines, vec![5, 6]);
}

#[test]
fn each_line_has_its_own_counter() {
    assert_eq!(counter_global(4), "@__osp_cov_hits.4");
    assert_eq!(counter_global(1234), "@__osp_cov_hits.1234");
}
