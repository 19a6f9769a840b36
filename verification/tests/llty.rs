use osprey_codegen::llty::{
    comma_join, elem_of_spelling, elem_of_tag, elem_spelling, elem_tagged_owner, join,
    ret_spelling, scalar_spelling, zero_literal,
};
use osprey_codegen::{result_struct_ty, LType, Value};

#[test]
fn every_type_has_one_spelling() {
    assert_eq!(LType::I64.as_str(), "i64");
    assert_eq!(LType::I1.as_str(), "i1");
    assert_eq!(LType::I32.as_str(), "i32");
    assert_eq!(LType::Double.as_str(), "double");
    assert_eq!(LType::Str.as_str(), "i8*");
    assert_eq!(LType::Ptr.as_str(), "i8*");
    assert_eq!(LType::Any.as_str(), "i8*");
}

#[test]
fn only_pointer_types_are_managed() {
    assert!(LType::Str.is_managed_ptr());
    assert!(LType::Ptr.is_managed_ptr());
    assert!(LType::Any.is_managed_ptr());
    assert!(!LType::I64.is_managed_ptr());
    assert!(!LType::I1.is_managed_ptr());
    assert!(!LType::I32.is_managed_ptr());
    assert!(!LType::Double.is_managed_ptr());
}

#[test]
fn zero_literals() {
    assert_eq!(zero_literal(LType::Double), "0.0");
    assert_eq!(zero_literal(LType::Str), "null");
    assert_eq!(zero_literal(LType::Any), "null");
    assert_eq!(zero_literal(LType::I1), "false");
    assert_eq!(zero_literal(LType::I64), "0");
    assert_eq!(zero_literal(LType::I32), "0");
}

#[test]
fn result_blocks_and_return_slots() {
    assert_eq!(result_struct_ty(LType::I64), "{ i64, i8, i8* }");
    assert_eq!(result_struct_ty(LType::Double), "{ double, i8, i8* }");
    assert_eq!(ret_spelling(LType::Ptr, Some(LType::Str)), "{ i8*, i8, i8* }*");
    assert_eq!(ret_spelling(LType::I1, None), "i1");
}

#[test]
fn joins_separate_parts() {
    let parts = vec!["i64".to_string(), "i8*".to_string(), "double".to_string()];
    assert_eq!(comma_join(&parts), "i64, i8*, double");
    assert_eq!(join(&parts, "|"), "i64|i8*|double");
    assert_eq!(comma_join(&[]), "");
    assert_eq!(comma_join(&parts[..1]), "i64");
}

#[test]
fn owner_tags_name_their_element() {
    assert_eq!(elem_tagged_owner("List#", "List", Some("double")), "List#double");
    assert_eq!(elem_tagged_owner("List#", "List", None), "List");
    let list = Value::handle("%l", "List#i8*");
    assert_eq!(elem_of_tag(&list, "List#").as_deref(), Some("i8*"));
    assert_eq!(elem_of_tag(&list, "Map#"), None);
    assert_eq!(elem_of_tag(&Value::new("%n", LType::I64), "List#"), None);
}

#[test]
fn tag_spellings_round_trip() {
    for ty in [LType::I64, LType::Double, LType::I1, LType::Str, LType::Any, LType::Ptr] {
        let spelled = scalar_spelling(ty).unwrap();
        let (back, owner) = elem_of_spelling(spelled);
        assert_eq!(back, ty);
        assert_eq!(owner, None);
    }
    assert_eq!(scalar_spelling(LType::I32), None);
    let (ty, owner) = elem_of_spelling("List#i64");
    assert_eq!(ty, LType::Ptr);
    assert_eq!(owner.as_deref(), Some("List#i64"));
}

#[test]
fn element_spellings_prefer_the_owner() {
    assert_eq!(elem_spelling(&Value::new("%x", LType::Double)).as_deref(), Some("double"));
    assert_eq!(elem_spelling(&Value::handle("%p", "Point")).as_deref(), Some("Point"));
    assert_eq!(elem_spelling(&Value::new("%a", LType::Any)).as_deref(), Some("any"));
    assert_eq!(elem_spelling(&Value::new("%h", LType::Ptr)).as_deref(), Some("ptr"));
    assert_eq!(elem_spelling(&Value::result("%r", LType::I64)), None);
    assert_eq!(elem_spelling(&Value::new("%w", LType::I32)), None);
}

#[test]
fn values_carry_their_metadata() {
    let v = Value::result("%r", LType::I64);
    assert_eq!(v.llvm_ty(), "{ i64, i8, i8* }*");
    assert_eq!(v.result_struct_ty().as_deref(), Some("{ i64, i8, i8* }"));
    assert_eq!(v.typed(), "{ i64, i8, i8* }* %r");
    assert_eq!(v.osp_ty.as_deref(), Some("Result"));
    let u = Value::unit();
    assert_eq!(u.typed(), "i64 0");
    assert_eq!(u.result_struct_ty(), None);
    let w = Value::new("%w", LType::I64)
        .with_owner(Some("Point".to_string()))
        .with_payload_owner(Some("Inner".to_string()))
        .with_result_inner_placeholder();
    assert_eq!(w.osp_ty.as_deref(), Some("Point"));
    assert_eq!(w.payload_owner.as_deref(), Some("Inner"));
    assert!(w.result_inner_is_placeholder);
    let f = Value::new("%f", LType::I64).with_fiber_elem(&v);
    assert_eq!(f.fiber_elem, Some(LType::Ptr));
    assert_eq!(f.fiber_elem_owner.as_deref(), Some("Result"));
    assert_eq!(f.fiber_elem_result_inner, Some(LType::I64));
    let d = f.duplicate();
    assert_eq!(d.operand, "%f");
    assert_eq!(d.fiber_elem_result_inner, Some(LType::I64));
}
