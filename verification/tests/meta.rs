use osprey_codegen::meta::{
    list_hdr_meta, struct_meta, MetaField, KIND_LIST_HDR_PTR, KIND_LIST_HDR_SCALAR, KIND_MASK,
    KIND_MASK_DIRECT, KIND_RAW, MASK_MAX_WORD,
};
use osprey_codegen::LType;

/// The word offsets a meta word marks, recovered bit-for-bit the way the
/// runtime reads them.
fn mask_words(meta: i64) -> Vec<u64> {
    let bits = u64::from_ne_bytes(meta.to_ne_bytes()) >> 8;
    (0..=MASK_MAX_WORD)
        .filter(|w| bits & (1 << w) != 0)
        .collect()
}

#[test]
fn result_block_masks_depend_on_payload() {
    let m = struct_meta(&[MetaField::Word, MetaField::Byte, MetaField::PtrManaged]);
    assert_eq!(m & 0xFF, KIND_MASK);
    assert_eq!(mask_words(m), vec![2]);
    let m = struct_meta(&[
        MetaField::PtrManaged,
        MetaField::Byte,
        MetaField::PtrManaged,
    ]);
    assert_eq!(mask_words(m), vec![0, 2]);
    let m = struct_meta(&[MetaField::Byte, MetaField::Byte, MetaField::PtrManaged]);
    assert_eq!(mask_words(m), vec![1]);
}

#[test]
fn http_response_marks_words_1_2_5() {
    let m = struct_meta(&[
        MetaField::Word,
        MetaField::PtrManaged,
        MetaField::PtrManaged,
        MetaField::Word,
        MetaField::Byte,
        MetaField::PtrManaged,
    ]);
    assert_eq!(mask_words(m), vec![1, 2, 5]);
}

#[test]
fn scalar_structs_and_opaque_pointers_are_raw() {
    assert_eq!(struct_meta(&[MetaField::Word, MetaField::Word]), KIND_RAW);
    assert_eq!(
        struct_meta(&[MetaField::PtrOpaque, MetaField::Word]),
        KIND_RAW
    );
}

#[test]
fn all_proven_fields_upgrade_to_mask_direct() {
    let m = struct_meta(&[
        MetaField::Word,
        MetaField::PtrDirect,
        MetaField::PtrDirect,
        MetaField::Word,
    ]);
    assert_eq!(m & 0xFF, KIND_MASK_DIRECT);
    assert_eq!(mask_words(m), vec![1, 2]);
    let m = struct_meta(&[MetaField::Word, MetaField::PtrDirect, MetaField::PtrManaged]);
    assert_eq!(m & 0xFF, KIND_MASK);
    assert_eq!(mask_words(m), vec![1, 2]);
}

#[test]
fn oversized_structs_fall_back_to_raw() {
    let mut fields = vec![MetaField::Word; 56];
    fields.push(MetaField::PtrManaged);
    assert_eq!(struct_meta(&fields), KIND_RAW);
}

#[test]
fn the_last_mask_word_lands_on_the_sign_bit() {
    let mut fields = vec![MetaField::Word; 55];
    fields.push(MetaField::PtrManaged);
    let m = struct_meta(&fields);
    assert!(m < 0);
    assert_eq!(m & 0xFF, KIND_MASK);
    assert_eq!(mask_words(m), vec![55]);
}

#[test]
fn empty_struct_is_raw() {
    assert_eq!(struct_meta(&[]), KIND_RAW);
}

#[test]
fn half_words_pack_and_realign_pointers() {
    // { i32, i32, i8* }: the two halves share word 0, the pointer is word 1.
    let m = struct_meta(&[MetaField::Half, MetaField::Half, MetaField::PtrManaged]);
    assert_eq!(mask_words(m), vec![1]);
    // { i8, i32, i8* }: the half aligns to offset 4, the pointer to 8.
    let m = struct_meta(&[MetaField::Byte, MetaField::Half, MetaField::PtrManaged]);
    assert_eq!(mask_words(m), vec![1]);
}

#[test]
fn list_headers_take_their_own_kinds() {
    assert_eq!(list_hdr_meta(true), KIND_LIST_HDR_PTR);
    assert_eq!(list_hdr_meta(false), KIND_LIST_HDR_SCALAR);
}

#[test]
fn fields_follow_their_slot_types() {
    assert_eq!(MetaField::of_lty(LType::I64), MetaField::Word);
    assert_eq!(MetaField::of_lty(LType::Double), MetaField::Word);
    assert_eq!(MetaField::of_lty(LType::I1), MetaField::Byte);
    assert_eq!(MetaField::of_lty(LType::I32), MetaField::Half);
    assert_eq!(MetaField::of_lty(LType::Str), MetaField::PtrManaged);
    assert_eq!(MetaField::of_lty(LType::Ptr), MetaField::PtrManaged);
    assert_eq!(MetaField::of_slot_ty("i8*"), MetaField::PtrManaged);
    assert_eq!(MetaField::of_slot_ty("{ i64, i8* }*"), MetaField::PtrManaged);
    assert_eq!(MetaField::of_slot_ty("i1"), MetaField::Byte);
    assert_eq!(MetaField::of_slot_ty("i32"), MetaField::Half);
    assert_eq!(MetaField::of_slot_ty("double"), MetaField::Word);
    assert_eq!(MetaField::of_slot_ty("i64"), MetaField::Word);
}

#[test]
fn field_sizes() {
    assert_eq!(MetaField::Word.size_align(), 8);
    assert_eq!(MetaField::PtrOpaque.size_align(), 8);
    assert_eq!(MetaField::Byte.size_align(), 1);
    assert_eq!(MetaField::Half.size_align(), 4);
}
