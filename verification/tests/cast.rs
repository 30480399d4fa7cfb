use submilli_wasm::canon::{AggKind, CanonicalTypeId, IrHeap};
use submilli_wasm::config::Config;
use submilli_wasm::engine::Engine;
use submilli_wasm::exec::cast::{br_on_cast_taken, matches_heaptype, ref_cast, ref_eq, ref_test, RefObject};
use submilli_wasm::gc_types::{FieldTemplate, RecGroupBuilder, StructSuperType, StructType};
use submilli_wasm::trap::Trap;
use submilli_wasm::value::{FieldType, Finality, Mutability, StorageType, Val, ValType};

fn i32_field() -> FieldType {
    FieldType::new(Mutability::Const, StorageType::ValType(ValType::I32))
}

/// A non-final base struct and a final struct that declares it as its supertype.
fn base_and_sub(engine: &mut Engine) -> (CanonicalTypeId, CanonicalTypeId) {
    let mut bb = RecGroupBuilder::new();
    let b = bb.declare_struct();
    bb.define_struct_with_finality_and_supertype(b, Finality::NonFinal, None, vec![FieldTemplate::field(i32_field())]);
    let base_group = bb.build(engine).unwrap();
    let base: StructType = base_group.struct_(engine, b).unwrap();
    let base_id = base.id();
    let mut sb = RecGroupBuilder::new();
    let s = sb.declare_struct();
    sb.define_struct_with_finality_and_supertype(
        s,
        Finality::Final,
        Some(StructSuperType::Type(base)),
        vec![FieldTemplate::field(i32_field()), FieldTemplate::field(i32_field())],
    );
    let sub_group = sb.build(engine).unwrap();
    let sub_id = sub_group.struct_(engine, s).unwrap().id();
    (base_id, sub_id)
}

#[test]
fn a_subtype_passes_a_cast_to_its_supertype_but_not_back() {
    let mut engine = Engine::new(&Config::new(), false, None).unwrap();
    let (base, sub) = base_and_sub(&mut engine);
    let concrete = IrHeap::Concrete(0, AggKind::Struct);
    assert_eq!(ref_test(&engine, Some(RefObject::Struct(sub)), &concrete, false, base), 1);
    assert_eq!(ref_test(&engine, Some(RefObject::Struct(base)), &concrete, false, sub), 0);
    assert_eq!(ref_cast(&engine, Some(RefObject::Struct(base)), &concrete, false, sub), Err(Trap::CastFailure));
    assert_eq!(ref_cast(&engine, Some(RefObject::Struct(sub)), &concrete, false, sub), Ok(()));
}

#[test]
fn null_matches_only_nullable_types() {
    let engine = Engine::new(&Config::new(), false, None).unwrap();
    let any = IrHeap::Any;
    assert!(matches_heaptype(&engine, None, &any, true, CanonicalTypeId(0)));
    assert!(!matches_heaptype(&engine, None, &any, false, CanonicalTypeId(0)));
    assert!(matches_heaptype(&engine, None, &IrHeap::NoneType, true, CanonicalTypeId(0)));
}

#[test]
fn abstract_types_match_by_hierarchy() {
    let engine = Engine::new(&Config::new(), false, None).unwrap();
    let id = CanonicalTypeId(0);
    assert!(matches_heaptype(&engine, Some(RefObject::I31(3)), &IrHeap::Eq, false, id));
    assert!(matches_heaptype(&engine, Some(RefObject::ExternAny), &IrHeap::Any, false, id));
    assert!(!matches_heaptype(&engine, Some(RefObject::ExternAny), &IrHeap::Eq, false, id));
    assert!(!matches_heaptype(&engine, Some(RefObject::Array(id)), &IrHeap::Struct, false, id));
    assert!(matches_heaptype(&engine, Some(RefObject::Func(id)), &IrHeap::Func, false, id));
    assert!(!matches_heaptype(&engine, Some(RefObject::Func(id)), &IrHeap::NoFunc, true, id));
}

#[test]
fn br_on_cast_fail_negates_the_test() {
    let engine = Engine::new(&Config::new(), false, None).unwrap();
    let id = CanonicalTypeId(0);
    assert!(br_on_cast_taken(&engine, Some(RefObject::I31(1)), &IrHeap::I31, false, id, false));
    assert!(!br_on_cast_taken(&engine, Some(RefObject::I31(1)), &IrHeap::I31, false, id, true));
}

#[test]
fn ref_eq_compares_handles_and_nulls() {
    assert!(ref_eq(&Val::AnyRef(None), &Val::AnyRef(None)));
    assert!(ref_eq(&Val::AnyRef(Some(4)), &Val::AnyRef(Some(4))));
    assert!(!ref_eq(&Val::AnyRef(Some(4)), &Val::AnyRef(Some(5))));
    assert!(!ref_eq(&Val::AnyRef(None), &Val::AnyRef(Some(5))));
}
