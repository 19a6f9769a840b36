use osprey_codegen::gpu::{elem_owner, is_buffer_owner, list_elem, tagged_elem};
use osprey_codegen::{LType, Value};

#[test]
fn a_buffer_tag_gives_back_its_element_type() {
    for elem in [LType::Double, LType::I1, LType::I64] {
        let owner = elem_owner(Some(elem));
        let buffer = Value::handle("%b", &owner);
        assert_eq!(tagged_elem(&buffer), Some(elem));
        assert!(is_buffer_owner(&owner));
    }
    assert_eq!(elem_owner(Some(LType::Double)), "Gpu#double");
    assert_eq!(elem_owner(None), "GpuBuffer");
    assert!(is_buffer_owner("GpuBuffer"));
}

#[test]
fn untyped_or_foreign_tags_carry_no_element() {
    assert_eq!(tagged_elem(&Value::handle("%b", "GpuBuffer")), None);
    assert_eq!(tagged_elem(&Value::handle("%b", "Gpu#i8*")), None);
    assert_eq!(tagged_elem(&Value::new("%b", LType::Ptr)), None);
    assert_eq!(list_elem(&Value::handle("%l", "[]double")), Some(LType::Double));
    assert!(!is_buffer_owner("List#i64"));
}
