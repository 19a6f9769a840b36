//! Per-allocation layout metadata for `@osp_alloc_tagged` — the kind + word
//! bitmask the ARC backend stores in the object header. Codegen knows the
//! exact layout at each alloc site, so it passes the layout down instead of
//! relying on a pointers-first convention the existing ABIs (tag-first
//! records, `Result`'s trailing errmsg, `HttpResponse`'s C layout) would
//! violate. Non-counting backends ignore the word.
//!
//! Encoding (shared with the runtime's ARC drop walk): low 8 bits a kind,
//! upper 56 a bitmask — bit `8 + i` set ⇒ the 8-byte word at body offset
//! `8 * i` is a managed pointer the drop walk releases.

use crate::llty::LType;
use crate::text::{ends_with, str_eq};
use vstd::prelude::*;

verus! {

/// Opaque bytes: no children to release. The default for plain `osp_alloc`.
pub const KIND_RAW: i64 = 0;

/// Children live at the masked word offsets.
pub const KIND_MASK: i64 = 1;

/// `{ i64 len, i8* data }` with pointer elements: release `data[0..len)`,
/// then `data`.
pub const KIND_LIST_HDR_PTR: i64 = 2;

/// `{ i64 len, i8* data }` with scalar elements: release `data` only.
pub const KIND_LIST_HDR_SCALAR: i64 = 3;

/// A `KIND_MASK` whose every masked child is proven to be an ARC body or
/// NULL: the drop walk reads child headers directly, skipping the registry
/// probe.
pub const KIND_MASK_DIRECT: i64 = 5;

/// Highest word index the 56-bit mask can name.
pub const MASK_MAX_WORD: u64 = 55;

/// One struct field as the layout calculator sees it. Pointer-typed fields are
/// split by whether the ARC drop should release them.
#[derive(Debug, Clone, Copy, PartialEq, Eq, Structural)]
pub enum MetaField {
    /// 8-byte scalar (`i64` / `double`). Never marked: a false release could
    /// corrupt, a missed one only leaks.
    Word,
    /// 8-byte managed pointer — the drop walk releases it.
    PtrManaged,
    /// 8-byte managed pointer proven to be an ARC body or NULL (a
    /// declared-union field).
    PtrDirect,
    /// 8-byte pointer the drop walk must NOT release (code pointer, foreign).
    PtrOpaque,
    /// 1-byte field (`i1` / `i8`).
    Byte,
    /// 4-byte field (`i32`).
    Half,
}

impl MetaField {
    /// Size and natural alignment in bytes.
    pub open spec fn size(self) -> nat {
        match self {
            MetaField::Word | MetaField::PtrManaged | MetaField::PtrDirect
            | MetaField::PtrOpaque => 8,
            MetaField::Byte => 1,
            MetaField::Half => 4,
        }
    }

    /// The drop walk releases this field.
    pub open spec fn marked(self) -> bool {
        self == MetaField::PtrManaged || self == MetaField::PtrDirect
    }

    /// Size and natural alignment in bytes.
    pub fn size_align(self) -> (r: u64)
        ensures
            r == self.size(),
    {
        match self {
            MetaField::Word | MetaField::PtrManaged | MetaField::PtrDirect
            | MetaField::PtrOpaque => 8,
            MetaField::Byte => 1,
            MetaField::Half => 4,
        }
    }

    /// The layout field of a value of LLVM type `lty`.
    pub open spec fn field_of(lty: LType) -> MetaField {
        match lty {
            LType::Str | LType::Ptr | LType::Any => MetaField::PtrManaged,
            LType::I1 => MetaField::Byte,
            LType::I32 => MetaField::Half,
            LType::I64 | LType::Double => MetaField::Word,
        }
    }

    /// The layout field for a value of LLVM type `lty`: every managed pointer
    /// type (`Str`, `Ptr`, an `Any` box) is a managed field.
    pub fn of_lty(lty: LType) -> (r: MetaField)
        ensures
            r == MetaField::field_of(lty),
            r.marked() == lty.managed(),
    {
        match lty {
            LType::Str | LType::Ptr | LType::Any => MetaField::PtrManaged,
            LType::I1 => MetaField::Byte,
            LType::I32 => MetaField::Half,
            LType::I64 | LType::Double => MetaField::Word,
        }
    }

    /// The layout field of a textual slot type.
    pub open spec fn field_of_slot(slot_ty: Seq<char>) -> MetaField {
        if slot_ty == "i1"@ || slot_ty == "i8"@ {
            MetaField::Byte
        } else if slot_ty == "i32"@ {
            MetaField::Half
        } else if slot_ty == "i64"@ || slot_ty == "double"@ {
            MetaField::Word
        } else if slot_ty.len() > 0 && slot_ty.last() == '*' {
            MetaField::PtrManaged
        } else {
            MetaField::Word
        }
    }

    /// The layout field for a textual LLVM slot type (closure / effect-env
    /// cells spell their slots as strings): any pointer spelling is managed.
    pub fn of_slot_ty(slot_ty: &str) -> (r: MetaField)
        ensures
            r == MetaField::field_of_slot(slot_ty@),
    {
        if str_eq(slot_ty, "i1") || str_eq(slot_ty, "i8") {
            MetaField::Byte
        } else if str_eq(slot_ty, "i32") {
            MetaField::Half
        } else if str_eq(slot_ty, "i64") || str_eq(slot_ty, "double") {
            MetaField::Word
        } else if ends_with(slot_ty, "*") {
            proof {
                reveal_strlit("*");
                assert(slot_ty@.subrange(slot_ty@.len() - 1, slot_ty@.len() as int)[0]
                    == slot_ty@.last());
            }
            MetaField::PtrManaged
        } else {
            proof {
                reveal_strlit("*");
                if slot_ty@.len() > 0 && slot_ty@.last() == '*' {
                    assert(slot_ty@.subrange(slot_ty@.len() - 1, slot_ty@.len() as int) =~= "*"@);
                }
            }
            MetaField::Word
        }
    }
}

/// `off` rounded up to a multiple of `a`.
pub open spec fn align_up(off: nat, a: nat) -> nat {
    if a == 0 {
        off
    } else {
        (((off + a - 1) as nat / a) * a) as nat
    }
}

/// The byte offset just past the first `n` fields laid out in order with
/// natural alignment.
pub open spec fn end_after(fields: Seq<MetaField>, n: nat) -> nat
    decreases n,
{
    if n == 0 || n > fields.len() {
        0
    } else {
        let f = fields[n - 1];
        align_up(end_after(fields, (n - 1) as nat), f.size()) + f.size()
    }
}

/// The byte offset of field `i`.
pub open spec fn offset_of(fields: Seq<MetaField>, i: nat) -> nat {
    align_up(end_after(fields, i), fields[i as int].size())
}

/// The 8-byte word field `i` starts in.
pub open spec fn word_of(fields: Seq<MetaField>, i: nat) -> nat {
    offset_of(fields, i) / 8
}

/// Some field among the first `n` is released by the drop walk and starts in
/// word `w`.
pub open spec fn marks_word(fields: Seq<MetaField>, n: nat, w: nat) -> bool {
    exists|j: nat| j < n && #[trigger] fields[j as int].marked() && word_of(fields, j) == w
}

/// Some released field lies beyond the mask's reach.
pub open spec fn mask_overflows(fields: Seq<MetaField>) -> bool {
    exists|j: nat|
        j < fields.len() && #[trigger] fields[j as int].marked() && word_of(fields, j)
            > MASK_MAX_WORD
}

/// No field is released by the drop walk.
pub open spec fn none_marked(fields: Seq<MetaField>) -> bool {
    forall|j: int| 0 <= j < fields.len() ==> !(#[trigger] fields[j]).marked()
}

/// Every released field is proven direct.
pub open spec fn all_direct(fields: Seq<MetaField>) -> bool {
    forall|j: int|
        0 <= j < fields.len() && (#[trigger] fields[j]).marked() ==> fields[j]
            == MetaField::PtrDirect
}

/// The kind a masked struct takes.
pub open spec fn mask_kind(fields: Seq<MetaField>) -> i64 {
    if all_direct(fields) {
        KIND_MASK_DIRECT
    } else {
        KIND_MASK
    }
}

/// Bit `b` of `x`.
pub open spec fn bit(x: u64, b: u64) -> bool {
    (x >> b) & 1u64 == 1u64
}

proof fn lemma_bit_or_shift(m: u64, k: u64, w: u64)
    requires
        k < 64,
        w < 64,
    ensures
        bit(m | (1u64 << k), w) <==> (bit(m, w) || w == k),
{
    assert(((m | (1u64 << k)) >> w) & 1u64 == 1u64 <==> (((m >> w) & 1u64 == 1u64) || w == k))
        by (bit_vector)
        requires
            k < 64,
            w < 64,
    ;
}

proof fn lemma_zero_bits(m: u64)
    requires
        m == 0,
    ensures
        forall|w: u64| w < 64 ==> !bit(m, w),
{
    assert forall|w: u64| w < 64 implies !bit(m, w) by {
        assert(m == 0 ==> (m >> w) & 1u64 == 0u64) by (bit_vector);
    }
}

proof fn lemma_set_bit_nonzero(m: u64, k: u64)
    requires
        k < 64,
    ensures
        m | (1u64 << k) != 0,
{
    assert(k < 64 ==> m | (1u64 << k) != 0) by (bit_vector);
}

proof fn lemma_word_shift(mask: u64, kind: u64, w: u64)
    requires
        kind < 256,
        w < 56,
    ensures
        bit((mask << 8u64) | kind, (w + 8) as u64) == bit(mask, w),
        ((mask << 8u64) | kind) & 0xffu64 == kind,
{
    assert(((((mask << 8u64) | kind) >> ((w + 8) as u64)) & 1u64 == 1u64) == (((mask >> w) & 1u64)
        == 1u64)) by (bit_vector)
        requires
            kind < 256,
            w < 56,
    ;
    assert(((mask << 8u64) | kind) & 0xffu64 == kind) by (bit_vector)
        requires
            kind < 256,
    ;
}

proof fn lemma_round_trip(x: u64)
    ensures
        (x as i64) as u64 == x,
{
    assert((x as i64) as u64 == x) by (bit_vector);
}

proof fn lemma_align_bound(off: nat, a: nat)
    requires
        a > 0,
    ensures
        off <= align_up(off, a) <= off + a - 1,
{
    let q = ((off + a - 1) as nat) / a;
    assert(q * a <= off + a - 1) by (nonlinear_arith)
        requires
            q == ((off + a - 1) as nat) / a,
            a > 0,
    ;
    assert(q * a >= off) by (nonlinear_arith)
        requires
            q == ((off + a - 1) as nat) / a,
            a > 0,
    ;
}

/// `r` is the meta word of a struct laid out from `fields`: `KIND_RAW` when no
/// field is released or a released field lies beyond the mask's reach;
/// otherwise the kind in the low byte and bit `8 + w` set exactly when a
/// released field starts in word `w`. These determine all 64 bits.
pub open spec fn meta_describes(fields: Seq<MetaField>, r: i64) -> bool {
    &&& (none_marked(fields) || mask_overflows(fields)) ==> r == KIND_RAW
    &&& !(none_marked(fields) || mask_overflows(fields)) ==> {
        &&& (r as u64) & 0xffu64 == mask_kind(fields) as u64
        &&& forall|w: u64|
            w <= MASK_MAX_WORD ==> (bit(r as u64, (w + 8) as u64) <==> marks_word(
                fields,
                fields.len(),
                w as nat,
            ))
    }
}

/// The meta word for a struct laid out from `fields` in order with natural
/// alignment (LLVM's rules for this field set). `KIND_RAW` when no field is
/// released, or — leak-safe, never corrupting — when a released field lands
/// beyond the mask's reach. Otherwise the low byte is the kind (all-`PtrDirect`
/// masks upgrade to `KIND_MASK_DIRECT`, one unproven field keeps the probing
/// `KIND_MASK`) and bit `8 + w` is set exactly when a released field starts in
/// word `w`. The word is bit-preserving: word 55 lands on the sign bit.
pub fn struct_meta(fields: &[MetaField]) -> (r: i64)
    requires
        fields@.len() <= 0x0800_0000_0000_0000,
    ensures
        meta_describes(fields@, r),
{
    let ghost fs = fields@;
    let n = fields.len();
    let mut off: u64 = 0;
    let mut mask: u64 = 0;
    let mut direct = true;
    let mut i: usize = 0;
    proof {
        lemma_zero_bits(mask);
    }
    while i < n
        invariant
            n == fs.len(),
            fs == fields@,
            n <= 0x0800_0000_0000_0000,
            i <= n,
            off == end_after(fs, i as nat),
            off <= 16 * i,
            forall|j: nat|
                j < i && #[trigger] fs[j as int].marked() ==> word_of(fs, j) <= MASK_MAX_WORD,
            forall|w: u64| w < 64 ==> (bit(mask, w) <==> marks_word(fs, i as nat, w as nat)),
            direct == forall|j: int|
                0 <= j < i && (#[trigger] fs[j]).marked() ==> fs[j] == MetaField::PtrDirect,
            (mask == 0) == forall|j: int| 0 <= j < i ==> !(#[trigger] fs[j]).marked(),
        decreases n - i,
    {
        let f = fields[i];
        let sa = f.size_align();
        proof {
            lemma_align_bound(off as nat, sa as nat);
        }
        let placed = ((off + sa - 1) / sa) * sa;
        assert(placed == offset_of(fs, i as nat));
        let ghost old_mask = mask;
        if f == MetaField::PtrManaged || f == MetaField::PtrDirect {
            let word = placed / 8;
            assert(word == word_of(fs, i as nat));
            if word > MASK_MAX_WORD {
                assert(mask_overflows(fs)) by {
                    assert(fs[i as int].marked());
                }
                return KIND_RAW;
            }
            proof {
                lemma_set_bit_nonzero(mask, word);
            }
            mask = mask | (1u64 << word);
            proof {
                assert forall|w: u64| w < 64 implies (bit(mask, w) <==> marks_word(
                    fs,
                    (i + 1) as nat,
                    w as nat,
                )) by {
                    lemma_bit_or_shift(old_mask, word, w);
                    if w == word {
                        assert(fs[i as int].marked() && word_of(fs, i as nat) == w);
                    } else if bit(old_mask, w) {
                        let j = choose|j: nat|
                            j < i && #[trigger] fs[j as int].marked() && word_of(fs, j) == w
                                as nat;
                        assert(j < i + 1 && fs[j as int].marked());
                    } else if marks_word(fs, (i + 1) as nat, w as nat) {
                        let j = choose|j: nat|
                            j < i + 1 && #[trigger] fs[j as int].marked() && word_of(fs, j)
                                == w as nat;
                        if j < i {
                            assert(marks_word(fs, i as nat, w as nat));
                        }
                    }
                }
            }
            direct = direct && f == MetaField::PtrDirect;
        } else {
            proof {
                assert forall|w: u64| w < 64 implies (bit(mask, w) <==> marks_word(
                    fs,
                    (i + 1) as nat,
                    w as nat,
                )) by {
                    if marks_word(fs, (i + 1) as nat, w as nat) {
                        let j = choose|j: nat|
                            j < i + 1 && #[trigger] fs[j as int].marked() && word_of(fs, j)
                                == w as nat;
                        assert(j != i);
                        assert(marks_word(fs, i as nat, w as nat));
                    }
                    if marks_word(fs, i as nat, w as nat) {
                        let j = choose|j: nat|
                            j < i && #[trigger] fs[j as int].marked() && word_of(fs, j) == w
                                as nat;
                        assert(j < i + 1);
                    }
                }
            }
        }
        off = placed + sa;
        i = i + 1;
    }
    proof {
        assert(!mask_overflows(fs));
    }
    if mask == 0 {
        KIND_RAW
    } else {
        let kind: u64 = if direct {
            5
        } else {
            1
        };
        let word = (mask << 8u64) | kind;
        proof {
            lemma_round_trip(word);
            assert(direct == all_direct(fs));
            assert forall|w: u64| w <= MASK_MAX_WORD implies (bit(word, (w + 8) as u64) <==> marks_word(
                fs,
                fs.len(),
                w as nat,
            )) by {
                lemma_word_shift(mask, kind, w);
            }
            lemma_word_shift(mask, kind, 0);
        }
        word as i64
    }
}

/// The meta word for a flat list-literal header `{ i64 len, i8* data }`.
pub fn list_hdr_meta(elems_are_ptrs: bool) -> (r: i64)
    ensures
        r == if elems_are_ptrs {
            KIND_LIST_HDR_PTR
        } else {
            KIND_LIST_HDR_SCALAR
        },
{
    if elems_are_ptrs {
        KIND_LIST_HDR_PTR
    } else {
        KIND_LIST_HDR_SCALAR
    }
}

} // verus!
