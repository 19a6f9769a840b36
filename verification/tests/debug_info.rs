use osprey_codegen::ast::Position;
use osprey_codegen::debug_info::{host_dwarf_version, DebugSource, DebugState};
use osprey_codegen::LType;

fn source() -> DebugSource {
    DebugSource {
        path: "/src/demo \"q\".osp".to_string(),
        filename: "demo.osp".to_string(),
        directory: "/src".to_string(),
    }
}

#[test]
fn a_function_gets_a_subprogram_location_and_locals() {
    let mut d = DebugState::new(source(), 5);
    let id = d.begin_function("main", Some(Position { line: 3, column: 0 }));
    assert_eq!(id, 14);
    assert_eq!(d.location_id(), Some(15));
    assert_eq!(d.local_variable_id("x", LType::I64), Some(16));
    assert_eq!(d.local_variable_id("s", LType::Str), Some(17));
    d.finish_function();
    let lines = d.metadata_lines();
    assert_eq!(lines.len(), 13 + 5);
    assert_eq!(
        lines[13],
        "!14 = distinct !DISubprogram(name: \"main\", linkageName: \"main\", scope: !0, file: !0, line: 3, type: !3, scopeLine: 3, spFlags: DISPFlagDefinition, unit: !1, retainedNodes: !13)"
    );
    assert_eq!(lines[14], "!15 = !DILocation(line: 3, column: 1, scope: !14)");
    assert_eq!(
        lines[15],
        "!16 = !DILocalVariable(name: \"x\", scope: !14, file: !0, line: 3, type: !7)"
    );
    assert_eq!(
        lines[16],
        "!17 = !DILocalVariable(name: \"s\", scope: !14, file: !0, line: 3, type: !12)"
    );
    assert_eq!(lines[17], "!13 = !{!16, !17}");
}

#[test]
fn the_fixed_nodes_describe_the_file_and_the_basic_types() {
    let d = DebugState::new(source(), 4);
    let lines = d.metadata_lines();
    assert_eq!(
        lines,
        vec![
            "!0 = !DIFile(filename: \"demo.osp\", directory: \"/src\")",
            "!1 = distinct !DICompileUnit(language: DW_LANG_C, file: !0, producer: \"osprey\", isOptimized: false, runtimeVersion: 0, emissionKind: FullDebug)",
            "!2 = !{}",
            "!3 = !DISubroutineType(types: !2)",
            "!4 = !{i32 2, !\"Dwarf Version\", i32 4}",
            "!5 = !{i32 2, !\"Debug Info Version\", i32 3}",
            "!6 = !{!\"osprey\"}",
            "!7 = !DIBasicType(name: \"int\", size: 64, encoding: DW_ATE_signed)",
            "!8 = !DIBasicType(name: \"c_int\", size: 32, encoding: DW_ATE_signed)",
            "!9 = !DIBasicType(name: \"bool\", size: 1, encoding: DW_ATE_boolean)",
            "!10 = !DIBasicType(name: \"float\", size: 64, encoding: DW_ATE_float)",
            "!11 = !DIBasicType(name: \"char\", size: 8, encoding: DW_ATE_signed_char)",
            "!12 = !DIDerivedType(tag: DW_TAG_pointer_type, baseType: !11, size: 64)",
        ]
    );
    assert_eq!(d.module_flags(), "!llvm.module.flags = !{!4, !5}");
    assert_eq!(d.compile_units(), "!llvm.dbg.cu = !{!1}");
    assert_eq!(d.ident(), "!llvm.ident = !{!6}");
    assert_eq!(d.source_filename(), "/src/demo \\\"q\\\".osp");
}

#[test]
fn no_location_outside_a_function_or_without_a_position() {
    let mut d = DebugState::new(source(), 5);
    assert_eq!(d.location_id(), None);
    assert_eq!(d.local_variable_id("x", LType::I1), None);
    d.begin_function("f", None);
    assert_eq!(d.location_id(), None);
    assert_eq!(d.set_position(Some(Position { line: 0, column: 7 })), None);
    assert_eq!(d.location_id(), Some(15));
    // Moving to no position keeps the current one.
    assert_eq!(d.set_position(None), Some(Position { line: 0, column: 7 }));
    d.clear_function();
    assert_eq!(d.location_id(), None);
    let lines = d.metadata_lines();
    assert_eq!(lines[13], "!14 = distinct !DISubprogram(name: \"f\", linkageName: \"f\", scope: !0, file: !0, line: 1, type: !3, scopeLine: 1, spFlags: DISPFlagDefinition, unit: !1, retainedNodes: !13)");
    assert_eq!(lines[14], "!15 = !DILocation(line: 1, column: 8, scope: !14)");
    assert_eq!(lines.len(), 15);
}

#[test]
fn the_column_saturates_and_each_function_gets_fresh_ids() {
    let mut d = DebugState::new(source(), 5);
    d.begin_function("a", Some(Position { line: 2, column: u32::MAX }));
    assert_eq!(d.location_id(), Some(15));
    d.finish_function();
    assert_eq!(d.begin_function("b\\c", Some(Position { line: 9, column: 1 })), 17);
    d.finish_function();
    let lines = d.metadata_lines();
    assert_eq!(lines[14], format!("!15 = !DILocation(line: 2, column: {}, scope: !14)", u32::MAX));
    assert_eq!(lines[15], "!13 = !{}");
    assert!(lines[16].starts_with("!17 = distinct !DISubprogram(name: \"b\\\\c\""));
    assert_eq!(lines[17], "!16 = !{}");
}

#[test]
fn debug_types_follow_the_value_type() {
    let d = DebugState::new(source(), 5);
    assert_eq!(d.debug_type_id(LType::I64), 7);
    assert_eq!(d.debug_type_id(LType::I32), 8);
    assert_eq!(d.debug_type_id(LType::I1), 9);
    assert_eq!(d.debug_type_id(LType::Double), 10);
    assert_eq!(d.debug_type_id(LType::Ptr), 12);
    assert_eq!(d.debug_type_id(LType::Any), 12);
}

#[test]
fn macos_hosts_get_dwarf_4() {
    assert_eq!(host_dwarf_version(true), 4);
    assert_eq!(host_dwarf_version(false), 5);
}
