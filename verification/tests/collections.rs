use osprey_codegen::collections::{
    is_list_owner, is_map_owner, list_owner, managed_flag, map_owner, tagged_elem, tagged_map_elem,
};
use osprey_codegen::gpu::{elem_owner, is_buffer_owner, list_elem, tagged_elem as gpu_elem};
use osprey_codegen::listlit::{is_lit, lit_elem, lit_owner, lit_owner_of};
use osprey_codegen::{LType, Value};

#[test]
fn list_and_map_owner_tags() {
    assert_eq!(list_owner(Some("double")), "List#double");
    assert_eq!(list_owner(None), "List");
    assert_eq!(map_owner(Some("i8*")), "Map#i8*");
    assert_eq!(map_owner(None), "Map");
    assert!(is_list_owner("List") && is_list_owner("List#i64"));
    assert!(!is_list_owner("Lists") && !is_list_owner("Map#i64"));
    assert!(is_map_owner("Map") && is_map_owner("Map#List#i64"));
    assert!(!is_map_owner("Mapping") && !is_map_owner("List"));
}

#[test]
fn tags_are_read_back() {
    let m = Value::handle("%m", "Map#List#i64");
    assert_eq!(tagged_map_elem(&m).as_deref(), Some("List#i64"));
    assert_eq!(tagged_elem(&m), None);
    let l = Value::handle("%l", "List#double");
    assert_eq!(tagged_elem(&l).as_deref(), Some("double"));
    assert_eq!(tagged_elem(&Value::handle("%b", "List")), None);
}

#[test]
fn managed_elements_are_flagged() {
    assert_eq!(managed_flag(&Value::new("%s", LType::Str)), "1");
    assert_eq!(managed_flag(&Value::new("%a", LType::Any)), "1");
    assert_eq!(managed_flag(&Value::new("%n", LType::I64)), "0");
}

#[test]
fn list_literal_owners() {
    assert_eq!(lit_owner(&Value::new("%x", LType::Double)), "[]double");
    assert_eq!(lit_owner(&Value::result("%r", LType::I64)), "[]i64");
    assert_eq!(lit_owner(&Value::handle("%p", "Point")), "[]Point");
    assert_eq!(lit_owner_of("i8*"), "[]i8*");
    assert_eq!(lit_elem(Some("[]i8*")), Some((LType::Str, None)));
    assert_eq!(lit_elem(Some("[]Point")), Some((LType::Ptr, Some("Point".to_string()))));
    assert_eq!(lit_elem(Some("List#i64")), None);
    assert_eq!(lit_elem(None), None);
    assert!(is_lit(&Value::handle("%l", "[]i64")));
    assert!(!is_lit(&Value::handle("%l", "List#i64")));
    assert!(!is_lit(&Value::new("%n", LType::I64)));
}

#[test]
fn gpu_buffer_tags() {
    assert_eq!(elem_owner(Some(LType::Double)), "Gpu#double");
    assert_eq!(elem_owner(None), "GpuBuffer");
    assert!(is_buffer_owner("GpuBuffer") && is_buffer_owner("Gpu#i1"));
    assert!(!is_buffer_owner("Gpu") && !is_buffer_owner("List#i64"));
    assert_eq!(gpu_elem(&Value::handle("%g", "Gpu#double")), Some(LType::Double));
    assert_eq!(gpu_elem(&Value::handle("%g", "Gpu#i1")), Some(LType::I1));
    assert_eq!(gpu_elem(&Value::handle("%g", "Gpu#i8*")), None);
    assert_eq!(gpu_elem(&Value::handle("%g", "GpuBuffer")), None);
    assert_eq!(list_elem(&Value::handle("%l", "[]i64")), Some(LType::I64));
    for ty in [LType::Double, LType::I1, LType::I64] {
        let owner = elem_owner(Some(ty));
        assert_eq!(gpu_elem(&Value::handle("%g", &owner)), Some(ty));
    }
}
