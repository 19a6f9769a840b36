use osprey_codegen::aggregate::tagged_fields_meta;
use osprey_codegen::anybox::{
    candidate_rows, desc_operand, field_metas, is_opaque_owner, key_kind, key_slug, opaque_label,
    row_block_ty, DescKey, KIND_BOOL, KIND_FLOAT, KIND_INT, KIND_OPAQUE, KIND_RESULT, KIND_STRING,
    KIND_UNION, ROW,
};
use osprey_codegen::meta::{MetaField, KIND_MASK, KIND_RAW};
use osprey_codegen::LType;

fn names(xs: &[&str]) -> Vec<String> {
    xs.iter().map(|s| s.to_string()).collect()
}

#[test]
fn descriptor_kinds_and_slugs() {
    assert_eq!(key_kind(&DescKey::Int), KIND_INT);
    assert_eq!(key_kind(&DescKey::Bool), KIND_BOOL);
    assert_eq!(key_kind(&DescKey::Float), KIND_FLOAT);
    assert_eq!(key_kind(&DescKey::Str), KIND_STRING);
    assert_eq!(key_kind(&DescKey::Row(names(&["a"]))), ROW);
    assert_eq!(key_kind(&DescKey::Union("Shape".to_string())), KIND_UNION);
    assert_eq!(key_kind(&DescKey::ResultOf(LType::I64)), KIND_RESULT);
    assert_eq!(key_kind(&DescKey::Opaque("<list>".to_string())), KIND_OPAQUE);
    assert_eq!(key_slug(&DescKey::Int), "int");
    assert_eq!(key_slug(&DescKey::Str), "string");
    assert_eq!(key_slug(&DescKey::Row(names(&["x", "y"]))), "row.x.y");
    assert_eq!(key_slug(&DescKey::Union("Shape".to_string())), "union.Shape");
    assert_eq!(key_slug(&DescKey::ResultOf(LType::Str)), "result.i8p");
    assert_eq!(key_slug(&DescKey::ResultOf(LType::Double)), "result.double");
    assert_eq!(key_slug(&DescKey::Opaque("<list>".to_string())), "opaque.list");
    assert_eq!(key_slug(&DescKey::Opaque("<<x>>".to_string())), "opaque.x");
}

#[test]
fn descriptor_operands_and_row_blocks() {
    assert_eq!(desc_operand("osp.any.desc.int"), "bitcast ({ i64, i8* }* @osp.any.desc.int to i8*)");
    assert_eq!(row_block_ty(3), "{ i8*, i8*, i8* }");
    assert_eq!(row_block_ty(1), "{ i8* }");
    assert_eq!(row_block_ty(0), "{  }");
    assert_eq!(field_metas(2), vec![MetaField::PtrManaged, MetaField::PtrManaged]);
}

#[test]
fn opaque_owners_render_as_placeholders() {
    for owner in ["", "HttpResponse", "List", "Map", "[]i64", "List#i8*", "Gpu#double", "Map#i64", "GpuBuffer"] {
        assert!(is_opaque_owner(owner), "{owner}");
    }
    assert!(!is_opaque_owner("Point"));
    assert_eq!(opaque_label("[]i64"), "<list>");
    assert_eq!(opaque_label("List#double"), "<list>");
    assert_eq!(opaque_label("List"), "<list>");
    assert_eq!(opaque_label("Map"), "<map>");
    assert_eq!(opaque_label("Map#i8*"), "<map>");
    assert_eq!(opaque_label("Gpu#i64"), "<gpu>");
    assert_eq!(opaque_label("GpuBuffer"), "<gpu>");
    assert_eq!(opaque_label("HttpResponse"), "<handle>");
}

#[test]
fn structural_patterns_select_rows_by_name_set() {
    let rows = vec![names(&["x", "y"]), names(&["y", "x", "z"]), names(&["x"]), names(&["y", "x"])];
    let closed = candidate_rows(&rows, &names(&["x", "y"]), false);
    assert_eq!(closed, vec![names(&["x", "y"]), names(&["y", "x"])]);
    let open = candidate_rows(&rows, &names(&["x", "y"]), true);
    assert_eq!(open, vec![names(&["x", "y"]), names(&["y", "x", "z"]), names(&["y", "x"])]);
    assert!(candidate_rows(&rows, &names(&["w"]), true).is_empty());
}

#[test]
fn tagged_records_mark_their_pointer_fields() {
    // { i64 tag, i8* name, i64 age }: the name is word 1.
    let fields = vec![("name".to_string(), LType::Str), ("age".to_string(), LType::I64)];
    let m = tagged_fields_meta(&fields);
    assert_eq!(m & 0xFF, KIND_MASK);
    assert_eq!((m as u64) >> 8, 1 << 1);
    let scalars = vec![("a".to_string(), LType::I64), ("b".to_string(), LType::Double)];
    assert_eq!(tagged_fields_meta(&scalars), KIND_RAW);
}
