use osprey_codegen::gpu_kernel::{mode_of, slot, uniform_admissible, GPU_KERNELS_ENV};
use osprey_codegen::{GpuKernelMode, LType, Value};

/// The parsed mode, or the rendered error.
fn parsed(value: Option<&str>) -> Result<GpuKernelMode, String> {
    mode_of(value).map_err(|e| e.to_string())
}

#[test]
fn unset_and_named_modes_parse() {
    assert_eq!(parsed(None), Ok(GpuKernelMode::Extract));
    assert_eq!(parsed(Some("")), Ok(GpuKernelMode::Extract));
    assert_eq!(parsed(Some("extract")), Ok(GpuKernelMode::Extract));
    assert_eq!(parsed(Some(" inline ")), Ok(GpuKernelMode::Inline));
}

#[test]
fn an_unrecognised_mode_is_an_error_not_a_fallback() {
    let message = parsed(Some("nope")).err().unwrap_or_default();
    assert!(
        message.contains("OSPREY_GPU_KERNELS=nope"),
        "unexpected message: {message}"
    );
}

#[test]
fn the_error_names_the_trimmed_setting_and_the_choices() {
    assert_eq!(
        parsed(Some("  Inline\t")),
        Err("codegen: invalid program: OSPREY_GPU_KERNELS=Inline: expected `extract` or `inline`"
            .to_string())
    );
}

#[test]
fn surrounding_white_space_never_changes_the_mode() {
    for raw in ["inline", " inline", "inline\n", "\t inline \r\n"] {
        assert_eq!(parsed(Some(raw)), Ok(GpuKernelMode::Inline));
    }
    assert_eq!(parsed(Some("   ")), Ok(GpuKernelMode::Extract));
    assert_eq!(parsed(Some("\u{3000}extract\u{a0}")), Ok(GpuKernelMode::Extract));
}

#[test]
fn extraction_is_the_default() {
    assert_eq!(GpuKernelMode::default(), GpuKernelMode::Extract);
    assert_eq!(GPU_KERNELS_ENV, "OSPREY_GPU_KERNELS");
}

#[test]
fn an_unpinned_buffer_element_is_a_raw_word() {
    assert_eq!(slot(None), LType::I64);
    assert_eq!(slot(Some(LType::Double)), LType::Double);
}

#[test]
fn only_scalars_and_buffers_travel_as_uniforms() {
    assert!(uniform_admissible(&Value::new("%n", LType::I64)));
    assert!(uniform_admissible(&Value::new("%x", LType::Double)));
    assert!(uniform_admissible(&Value::new("%b", LType::I1)));
    assert!(!uniform_admissible(&Value::new("%s", LType::Str)));
    assert!(!uniform_admissible(&Value::new("%a", LType::Any)));
    assert!(uniform_admissible(&Value::handle("%buf", "Gpu#double")));
    assert!(uniform_admissible(&Value::handle("%buf", "GpuBuffer")));
    assert!(!uniform_admissible(&Value::handle("%buf", "Gpu")));
    assert!(!uniform_admissible(&Value::handle("%l", "List#i64")));
    assert!(!uniform_admissible(&Value::new("%p", LType::Ptr)));
    assert!(!uniform_admissible(&Value::result("%r", LType::I64)));
}
