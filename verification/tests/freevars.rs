use osprey_codegen::ast::{
    Expr, FieldAssignment, HandlerArm, InterpolatedPart, MapEntry, MatchArm, NamedArgument,
    Parameter, Pattern, Stmt,
};
use osprey_codegen::freevars::{free_idents, names_of, note, pattern_bindings, walk};
use osprey_codegen::names::NameSet;

fn id(n: &str) -> Expr {
    Expr::Identifier(n.to_string())
}

fn bx(e: Expr) -> Box<Expr> {
    Box::new(e)
}

fn call(f: &str, args: Vec<Expr>) -> Expr {
    Expr::Call { function: bx(id(f)), arguments: args, named_arguments: vec![] }
}

fn lambda(params: &[&str], body: Expr) -> Expr {
    Expr::Lambda {
        parameters: params.iter().map(|p| Parameter { name: p.to_string() }).collect(),
        body: bx(body),
    }
}

fn arm(pattern: Pattern, body: Expr) -> MatchArm {
    MatchArm { pattern, body }
}

fn binding(n: &str) -> Pattern {
    Pattern::Binding(n.to_string())
}

fn frees(e: &Expr) -> NameSet {
    let mut out = NameSet::new();
    free_idents(e, &mut out);
    out
}

fn names(set: &NameSet) -> Vec<String> {
    set.as_slice().to_vec()
}

/// `fn(x, y) => add(x, y, outer)`
fn lambda_over_outer() -> Expr {
    lambda(&["x", "y"], call("add", vec![id("x"), id("y"), id("outer")]))
}

/// `fn(xs) => match xs { [head, ...tail] => use(head, tail, free1)
/// [only] => use2(only, free2)  _ => free3 }`
fn list_pattern_match() -> Expr {
    lambda(
        &["xs"],
        Expr::Match {
            value: bx(id("xs")),
            arms: vec![
                arm(
                    Pattern::List { elements: vec![binding("head")], rest: Some("tail".to_string()) },
                    call("use", vec![id("head"), id("tail"), id("free1")]),
                ),
                arm(
                    Pattern::List { elements: vec![binding("only")], rest: None },
                    call("use2", vec![id("only"), id("free2")]),
                ),
                arm(Pattern::Wildcard, id("free3")),
            ],
        },
    )
}

/// `fn() => { let a = seed  let b = step(a)  result(a, b, glob) }`
fn block_with_lets() -> Expr {
    lambda(
        &[],
        Expr::Block {
            statements: vec![
                Stmt::Let { name: "a".to_string(), mutable: false, value: id("seed"), position: None },
                Stmt::Let { name: "b".to_string(), mutable: false, value: call("step", vec![id("a")]), position: None },
            ],
            value: Some(bx(call("result", vec![id("a"), id("b"), id("glob")]))),
        },
    )
}

/// `fn(r) => "${field(r)} ${arr[idx]} ${r.member} ${lhs + rhs}"`
fn interpolation() -> Expr {
    lambda(
        &["r"],
        Expr::InterpolatedStr(vec![
            InterpolatedPart::Expr(call("field", vec![id("r")])),
            InterpolatedPart::Text(" ".to_string()),
            InterpolatedPart::Expr(Expr::Index { target: bx(id("arr")), index: bx(id("idx")) }),
            InterpolatedPart::Text(" ".to_string()),
            InterpolatedPart::Expr(Expr::FieldAccess { target: bx(id("r")), field: "member".to_string() }),
            InterpolatedPart::Text(" ".to_string()),
            InterpolatedPart::Expr(Expr::Binary {
                op: "+".to_string(),
                left: bx(id("lhs")),
                right: bx(id("rhs")),
            }),
        ]),
    )
}

/// `fn(v) => match v { Some(inner) => keep(inner, outer)  None => fallback }`
fn constructor_match() -> Expr {
    lambda(
        &["v"],
        Expr::Match {
            value: bx(id("v")),
            arms: vec![
                arm(
                    Pattern::Constructor {
                        name: "Some".to_string(),
                        fields: vec![],
                        sub_patterns: vec![binding("inner")],
                    },
                    call("keep", vec![id("inner"), id("outer")]),
                ),
                arm(
                    Pattern::Constructor { name: "None".to_string(), fields: vec![], sub_patterns: vec![] },
                    id("fallback"),
                ),
            ],
        },
    )
}

/// `fn(v) => match v { { name, age } => label(name, age, tag) }`
fn structural_match() -> Expr {
    lambda(
        &["v"],
        Expr::Match {
            value: bx(id("v")),
            arms: vec![arm(
                Pattern::FieldNames { fields: vec!["name".to_string(), "age".to_string()] },
                call("label", vec![id("name"), id("age"), id("tag")]),
            )],
        },
    )
}

/// `fn(seed) => spawn worker(seed, shared)`
fn spawn_worker() -> Expr {
    lambda(&["seed"], Expr::Spawn(bx(call("worker", vec![id("seed"), id("shared")]))))
}

/// `fn(n) => n |> scale |> offset(base)`
fn pipeline() -> Expr {
    lambda(
        &["n"],
        Expr::Pipe {
            left: bx(Expr::Pipe { left: bx(id("n")), right: bx(id("scale")) }),
            right: bx(call("offset", vec![id("base")])),
        },
    )
}

/// `fn(s) => s.replace(needle, with: repl)`
fn method_call() -> Expr {
    lambda(
        &["s"],
        Expr::MethodCall {
            target: bx(id("s")),
            method: "replace".to_string(),
            arguments: vec![id("needle")],
            named_arguments: vec![NamedArgument { name: "with".to_string(), value: id("repl") }],
        },
    )
}

/// `base { x: dx }`
fn record_update() -> Expr {
    Expr::Update {
        record: "base".to_string(),
        fields: vec![FieldAssignment { name: "x".to_string(), value: id("dx") }],
    }
}

/// `fn() => send(chan, payload)`
fn send_form() -> Expr {
    lambda(&[], Expr::Send { channel: bx(id("chan")), value: bx(id("payload")) })
}

/// `fn() => recv(inbox)`
fn recv_form() -> Expr {
    lambda(&[], Expr::Recv(bx(id("inbox"))))
}

/// `fn() => { mut a = seed  a = step(a)  emit(a) }`
fn block_with_assignment() -> Expr {
    lambda(
        &[],
        Expr::Block {
            statements: vec![
                Stmt::Let { name: "a".to_string(), mutable: true, value: id("seed"), position: None },
                Stmt::Assignment { name: "a".to_string(), value: call("step", vec![id("a")]), position: None },
                Stmt::Expr { value: call("emit", vec![id("a")]), position: None },
            ],
            value: None,
        },
    )
}

fn check_lambda_subtracts_parameters() {
    let f = frees(&lambda_over_outer());
    assert!(f.contains("add") && f.contains("outer"));
    assert!(!f.contains("x") && !f.contains("y"));
}

fn check_list_pattern() {
    let f = frees(&list_pattern_match());
    assert!(f.contains("use") && f.contains("use2"));
    assert!(f.contains("free1") && f.contains("free2") && f.contains("free3"));
    for bound in ["head", "tail", "only", "xs"] {
        assert!(!f.contains(bound), "`{bound}` must be bound, not free: {:?}", names(&f));
    }
}

fn check_block_lets() {
    let f = frees(&block_with_lets());
    assert!(f.contains("seed") && f.contains("step") && f.contains("result") && f.contains("glob"));
    assert!(!f.contains("a") && !f.contains("b"));
}

fn check_interpolation() {
    let f = frees(&interpolation());
    for name in ["field", "arr", "idx", "lhs", "rhs"] {
        assert!(f.contains(name), "missing free `{name}`: {:?}", names(&f));
    }
    assert!(!f.contains("r"));
}

fn check_constructor_pattern() {
    let f = frees(&constructor_match());
    assert!(f.contains("keep") && f.contains("outer") && f.contains("fallback"));
    assert!(!f.contains("inner"));
}

fn check_structural_pattern() {
    let f = frees(&structural_match());
    assert!(f.contains("label") && f.contains("tag"));
    assert!(!f.contains("name") && !f.contains("age"));
}

fn check_spawn_and_pipe() {
    let f = frees(&spawn_worker());
    assert!(f.contains("worker") && f.contains("shared"));
    assert!(!f.contains("seed"));
    let p = frees(&pipeline());
    assert!(p.contains("scale") && p.contains("offset") && p.contains("base"));
    assert!(!p.contains("n"));
}

fn check_method_call() {
    let f = frees(&method_call());
    assert!(f.contains("needle") && f.contains("repl"));
    assert!(!f.contains("s"));
}

fn check_record_update() {
    let out = frees(&record_update());
    assert!(out.contains("base") && out.contains("dx"));
}

fn check_fiber_forms() {
    let s = frees(&send_form());
    assert!(s.contains("chan") && s.contains("payload"));
    let r = frees(&recv_form());
    assert!(r.contains("inbox"));
}

fn check_block_statements() {
    let f = frees(&block_with_assignment());
    assert!(f.contains("seed") && f.contains("step") && f.contains("emit"));
}

#[test]
fn freevars_lambda_subtracts_parameters_keeps_outer_references() {
    check_lambda_subtracts_parameters();
}

#[test]
fn freevars_tests_lambda_subtracts_parameters_keeps_outer_references() {
    check_lambda_subtracts_parameters();
}

#[test]
fn freevars_list_pattern_binds_prefix_and_rest_not_free() {
    check_list_pattern();
}

#[test]
fn freevars_tests_list_pattern_binds_prefix_and_rest_not_free() {
    check_list_pattern();
}

#[test]
fn freevars_block_lets_scope_following_statements() {
    check_block_lets();
}

#[test]
fn freevars_tests_block_lets_scope_following_statements() {
    check_block_lets();
}

#[test]
fn freevars_interpolation_index_field_and_binary_are_all_walked() {
    check_interpolation();
}

#[test]
fn freevars_tests_interpolation_index_field_and_binary_are_all_walked() {
    check_interpolation();
}

#[test]
fn freevars_constructor_pattern_binds_positional_fields() {
    check_constructor_pattern();
}

#[test]
fn freevars_tests_constructor_pattern_binds_positional_fields() {
    check_constructor_pattern();
}

#[test]
fn freevars_structural_pattern_binds_named_fields() {
    check_structural_pattern();
}

#[test]
fn freevars_tests_structural_pattern_binds_named_fields() {
    check_structural_pattern();
}

#[test]
fn freevars_spawn_and_pipe_capture_through_to_inner_expressions() {
    check_spawn_and_pipe();
}

#[test]
fn freevars_tests_spawn_and_pipe_capture_through_to_inner_expressions() {
    check_spawn_and_pipe();
}

#[test]
fn freevars_method_call_walks_target_and_arguments() {
    check_method_call();
}

#[test]
fn freevars_tests_method_call_walks_target_and_arguments() {
    check_method_call();
}

#[test]
fn freevars_record_update_walks_record_and_field_values() {
    check_record_update();
}

#[test]
fn freevars_tests_record_update_walks_record_and_field_values() {
    check_record_update();
}

#[test]
fn freevars_fiber_forms_capture_inner_expressions() {
    check_fiber_forms();
}

#[test]
fn freevars_tests_fiber_forms_capture_inner_expressions() {
    check_fiber_forms();
}

#[test]
fn freevars_block_assignment_and_expr_statements_are_walked() {
    check_block_statements();
}

#[test]
fn freevars_tests_block_assignment_and_expr_statements_are_walked() {
    check_block_statements();
}

#[test]
fn free_names_come_out_sorted_and_once_each() {
    // fn() => f(b, a, b, c)
    let e = lambda(&[], call("f", vec![id("b"), id("a"), id("b"), id("c")]));
    assert_eq!(names(&frees(&e)), vec!["a", "b", "c", "f"]);
}

#[test]
fn names_bound_around_an_expression_are_subtracted() {
    // Walking `add(x, y, outer)` with `x` and `outer` bound reports the rest;
    // walking the same expression unbound reports everything.
    let body = call("add", vec![id("x"), id("y"), id("outer")]);
    let mut bound = vec!["x".to_string(), "outer".to_string()];
    let mut out = NameSet::new();
    walk(&body, &mut bound, &mut out);
    assert_eq!(names(&out), vec!["add", "y"]);
    assert_eq!(bound, vec!["x".to_string(), "outer".to_string()]);
    assert_eq!(names(&frees(&body)), vec!["add", "outer", "x", "y"]);
}

#[test]
fn a_lambda_never_closes_over_its_parameters() {
    // fn(a) => fn(b) => g(a, b, c)
    let e = lambda(&["a"], lambda(&["b"], call("g", vec![id("a"), id("b"), id("c")])));
    assert_eq!(names(&frees(&e)), vec!["c", "g"]);
}

#[test]
fn a_let_binds_only_the_statements_after_it() {
    // { let a = a  a }: the initializer's `a` is the outer one.
    let e = Expr::Block {
        statements: vec![Stmt::Let { name: "a".to_string(), mutable: false, value: id("a"), position: None }],
        value: Some(bx(id("a"))),
    };
    assert_eq!(names(&frees(&e)), vec!["a"]);
    // { x  let x = 1 }: the use before the let is free.
    let e = Expr::Block {
        statements: vec![
            Stmt::Expr { value: id("x"), position: None },
            Stmt::Let { name: "x".to_string(), mutable: false, value: Expr::Integer(1), position: None },
        ],
        value: Some(bx(id("x"))),
    };
    assert_eq!(names(&frees(&e)), vec!["x"]);
}

#[test]
fn handler_arms_bind_their_parameters() {
    // handle Log { log(msg) => print(msg, sink) } in run(job)
    let e = Expr::Handler {
        effect: "Log".to_string(),
        arms: vec![HandlerArm {
            operation: "log".to_string(),
            params: vec!["msg".to_string()],
            body: call("print", vec![id("msg"), id("sink")]),
        }],
        body: bx(call("run", vec![id("job")])),
    };
    assert_eq!(names(&frees(&e)), vec!["job", "print", "run", "sink"]);
}

#[test]
fn collections_objects_and_effects_are_walked() {
    let e = Expr::List(vec![
        Expr::MapLit(vec![MapEntry { key: id("k"), value: id("v") }]),
        Expr::Object(vec![FieldAssignment { name: "f".to_string(), value: id("o") }]),
        Expr::Perform {
            effect: "E".to_string(),
            operation: "op".to_string(),
            arguments: vec![id("p")],
            named_arguments: vec![NamedArgument { name: "n".to_string(), value: id("q") }],
        },
        Expr::Resume(Some(bx(id("r")))),
        Expr::Yield(None),
        Expr::Await(bx(id("w"))),
        Expr::Unary { op: "-".to_string(), operand: bx(id("u")) },
        Expr::Path("M.item".to_string()),
        Expr::Select {
            arms: vec![arm(binding("got"), call("take", vec![id("got")]))],
        },
        Expr::TypeConstructor {
            type_ref: "Point".to_string(),
            fields: vec![FieldAssignment { name: "x".to_string(), value: id("px") }],
        },
        Expr::Str("literal".to_string()),
        Expr::Float("1.5".to_string()),
        Expr::Bool(true),
    ]);
    assert_eq!(
        names(&frees(&e)),
        vec!["M.item", "k", "o", "p", "px", "q", "r", "take", "u", "v", "w"]
    );
}

#[test]
fn pattern_bindings_in_order() {
    let p = Pattern::Constructor {
        name: "Pair".to_string(),
        fields: vec!["left".to_string()],
        sub_patterns: vec![
            binding("a"),
            Pattern::List { elements: vec![binding("b"), Pattern::Wildcard], rest: Some("c".to_string()) },
            Pattern::TypeAnnotated { name: "d".to_string(), type_ref: "int".to_string() },
            Pattern::Literal(Expr::Integer(3)),
        ],
    };
    assert_eq!(pattern_bindings(&p), vec!["left", "a", "b", "c", "d"]);
    assert!(pattern_bindings(&Pattern::Wildcard).is_empty());
}

#[test]
fn note_skips_bound_names() {
    let mut out = NameSet::new();
    let bound = vec!["x".to_string()];
    note("x", &bound, &mut out);
    note("y", &bound, &mut out);
    note("y", &bound, &mut out);
    assert_eq!(names(&out), vec!["y"]);
    let ps = vec![Parameter { name: "p".to_string() }, Parameter { name: "q".to_string() }];
    assert_eq!(names_of(&ps), vec!["p", "q"]);
}
