use submilli_wasm::exec::cell::{decode, encode, Cell, NULL_REF};
use submilli_wasm::value::{HeapType, RefType, Val, ValType};

#[test]
fn scalar_cells_round_trip() {
    assert_eq!(decode(encode(Val::I32(-7)), &ValType::I32).unwrap_i32(), -7);
    assert_eq!(decode(encode(Val::I64(i64::MIN)), &ValType::I64).unwrap_i64(), i64::MIN);
    let f32_bits = (-1.5f32).to_bits();
    assert_eq!(decode(encode(Val::F32(f32_bits)), &ValType::F32).unwrap_f32_bits(), f32_bits);
    let f64_bits = 2.5f64.to_bits();
    assert_eq!(decode(encode(Val::F64(f64_bits)), &ValType::F64).unwrap_f64_bits(), f64_bits);
}

#[test]
fn ref_cells_encode_handle_and_null_sentinel() {
    let nonnull = encode(Val::FuncRef(Some(5)));
    assert!(!nonnull.is_null());
    assert_eq!(nonnull.handle(), 5);
    assert!(encode(Val::FuncRef(None)).is_null());
    assert!(encode(Val::ExternRef(None)).is_null());
    assert!(encode(Val::AnyRef(None)).is_null());
    assert!(encode(Val::ExnRef(None)).is_null());
}

#[test]
fn v128_cell_round_trips() {
    let v = 0x0123_4567_89ab_cdef_fedc_ba98_7654_3210u128;
    assert_eq!(decode(encode(Val::V128(v)), &ValType::V128), Val::V128(v));
}

#[test]
fn null_sentinel_is_not_all_zero() {
    let null = encode(Val::AnyRef(None));
    assert_eq!(null.handle(), NULL_REF);
    assert_ne!(null, Cell(0));
    assert!(!encode(Val::AnyRef(Some(0))).is_null());
}

#[test]
fn reference_cells_decode_by_hierarchy() {
    let t = ValType::Ref(RefType::new(true, HeapType::Extern));
    assert_eq!(decode(encode(Val::ExternRef(Some(9))), &t), Val::ExternRef(Some(9)));
    assert_eq!(decode(encode(Val::ExternRef(None)), &t), Val::ExternRef(None));
    let s = ValType::Ref(RefType::new(false, HeapType::Struct));
    assert_eq!(decode(encode(Val::AnyRef(Some(3))), &s), Val::AnyRef(Some(3)));
}

#[test]
fn negative_i32_occupies_only_the_low_bits() {
    let c = encode(Val::I32(-1));
    assert_eq!(c, Cell(0xffff_ffff));
    assert_eq!(decode(c, &ValType::I64), Val::I64(0xffff_ffff));
}
