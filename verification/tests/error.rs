use osprey_codegen::CodegenError;

#[test]
fn codegen_error_display_covers_all_variants() {
    assert_eq!(
        CodegenError::unsupported("x").to_string(),
        "codegen: unsupported construct: x"
    );
    assert_eq!(
        CodegenError::unknown("n").to_string(),
        "codegen: unknown name `n`"
    );
    assert_eq!(
        CodegenError::invalid("p").to_string(),
        "codegen: invalid program: p"
    );
}

#[test]
fn constructors_carry_their_text() {
    assert_eq!(
        CodegenError::unsupported("select"),
        CodegenError::Unsupported("select".to_string())
    );
    assert_eq!(
        CodegenError::unknown("nope"),
        CodegenError::UnknownName("nope".to_string())
    );
    assert_eq!(
        CodegenError::invalid("no callee"),
        CodegenError::Invalid("no callee".to_string())
    );
}
