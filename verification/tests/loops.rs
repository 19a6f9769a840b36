use osprey_codegen::builder::Codegen;
use osprey_codegen::loops::{close_list_loop, close_range_loop, open_list_loop, open_range_loop};

fn function_text(ir: &str, name: &str) -> String {
    let start = ir.find(&format!("define i64 @{name}(")).expect("the function");
    let end = ir[start..].find("\n}").expect("its end") + start;
    ir[start..end + 2].to_string()
}

#[test]
fn a_range_loop_counts_from_start_below_end() {
    let mut cg = Codegen::new();
    cg.begin_function("walk", None);
    let c = open_range_loop(&mut cg, "3", "%n");
    assert_eq!(c.slot, "%r0");
    assert_eq!(c.i, "%r1");
    assert_eq!(c.cond, "L0");
    assert_eq!(c.incr, "L2");
    assert_eq!(c.endl, "L3");
    assert_eq!(cg.cur_block(), "L1");
    cg.emit("call void @use(i64 %r1)");
    close_range_loop(&mut cg, &c);
    assert_eq!(cg.cur_block(), "L3");
    cg.emit("ret i64 0");
    cg.finish_function("i64", "walk", &[]);
    let ir = cg.render();
    let expected = [
        "define i64 @walk() #0 {",
        "entry:",
        "  %r0 = alloca i64",
        "  store i64 3, i64* %r0",
        "  br label %L0",
        "L0:",
        "  %r1 = load i64, i64* %r0",
        "  %r2 = icmp slt i64 %r1, %n",
        "  br i1 %r2, label %L1, label %L3",
        "L1:",
        "  call void @use(i64 %r1)",
        "  br label %L2",
        "L2:",
        "  %r3 = add i64 %r1, 1",
        "  store i64 %r3, i64* %r0",
        "  br label %L0",
        "L3:",
        "  ret i64 0",
        "}",
    ]
    .join("\n");
    assert_eq!(function_text(&ir, "walk"), expected);
}

#[test]
fn a_list_loop_is_bounded_by_the_length_and_fetches_each_element() {
    let mut cg = Codegen::new();
    cg.begin_function("each", None);
    let lp = open_list_loop(&mut cg, "%xs");
    assert_eq!(lp.elem, "%r4");
    assert_eq!(lp.counter.i, "%r2");
    cg.emit("call void @use(i64 %r4)");
    close_list_loop(&mut cg, &lp);
    cg.emit("ret i64 0");
    cg.finish_function("i64", "each", &[]);
    let ir = cg.render();
    assert!(ir.contains("declare i64 @osprey_list_length(i8*)"));
    assert!(ir.contains("declare i64 @osprey_list_get(i8*, i64)"));
    let expected = [
        "define i64 @each() #0 {",
        "entry:",
        "  %r0 = call i64 @osprey_list_length(i8* %xs)",
        "  %r1 = alloca i64",
        "  store i64 0, i64* %r1",
        "  br label %L0",
        "L0:",
        "  %r2 = load i64, i64* %r1",
        "  %r3 = icmp slt i64 %r2, %r0",
        "  br i1 %r3, label %L1, label %L3",
        "L1:",
        "  %r4 = call i64 @osprey_list_get(i8* %xs, i64 %r2)",
        "  call void @use(i64 %r4)",
        "  br label %L2",
        "L2:",
        "  %r5 = add i64 %r2, 1",
        "  store i64 %r5, i64* %r1",
        "  br label %L0",
        "L3:",
        "  ret i64 0",
        "}",
    ]
    .join("\n");
    assert_eq!(function_text(&ir, "each"), expected);
}
