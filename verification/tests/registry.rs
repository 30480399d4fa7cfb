use submilli_wasm::canon::registry::TypeRegistry;
use submilli_wasm::canon::{AggKind, CanonicalTypeId, CompositeBody, IrField, IrStorage, IrVal, ModuleType};
use submilli_wasm::engine::Engine;
use submilli_wasm::config::Config;
use submilli_wasm::gc_types::{ArrayType, FieldTemplate, RecGroupBuilder, StructSuperType, StructType, TypeError};
use submilli_wasm::value::{FieldType, Finality, HeapType, Mutability, RefType, StorageType, ValType};

fn func(group: u32, supertype: Option<u32>) -> ModuleType {
    ModuleType {
        group,
        finality: Finality::NonFinal,
        supertype,
        body: CompositeBody::Func {
            params: Vec::new(),
            results: Vec::new(),
        },
    }
}

fn engine() -> Engine {
    Engine::new(&Config::new(), false, None).unwrap()
}

fn i32_field(mutability: Mutability) -> FieldType {
    FieldType::new(mutability, StorageType::ValType(ValType::I32))
}

#[test]
fn structurally_identical_groups_share_a_canonical_id() {
    let mut reg = TypeRegistry::new();
    let (ids1, g1) = reg.intern_module(&[func(0, None)]);
    let (ids2, g2) = reg.intern_module(&[func(0, None)]);
    assert_eq!(ids1[0], ids2[0]);
    assert_eq!(g1, g2);
}

#[test]
fn declared_supertype_chain_is_a_subtype() {
    let mut reg = TypeRegistry::new();
    let field = IrField {
        mutable: false,
        storage: IrStorage::I8,
    };
    let module = [
        ModuleType {
            group: 0,
            finality: Finality::NonFinal,
            supertype: None,
            body: CompositeBody::Struct(vec![field.clone()]),
        },
        ModuleType {
            group: 1,
            finality: Finality::Final,
            supertype: Some(0),
            body: CompositeBody::Struct(vec![field.clone(), field]),
        },
    ];
    let (ids, _) = reg.intern_module(&module);
    assert!(reg.is_subtype(ids[1], ids[0]));
    assert!(!reg.is_subtype(ids[0], ids[1]));
}

#[test]
fn refcount_reclaims_only_at_zero() {
    let mut reg = TypeRegistry::new();
    let (ids1, g1) = reg.intern_module(&[func(0, None)]);
    let (_ids2, g2) = reg.intern_module(&[func(0, None)]);
    reg.release(&g1);
    assert!(reg.kind(ids1[0]).is_some());
    reg.release(&g2);
    assert!(reg.kind(ids1[0]).is_none());
}

#[test]
fn host_type_drop_reclaims() {
    let mut engine = engine();
    let base = engine.live_group_count();
    let st = StructType::new(&mut engine, &[i32_field(Mutability::Var)]).unwrap();
    let at = ArrayType::new(&mut engine, i32_field(Mutability::Var)).unwrap();
    assert_eq!(engine.live_group_count(), base + 2);
    st.release(&mut engine);
    at.release(&mut engine);
    assert_eq!(engine.live_group_count(), base);
}

#[test]
fn clone_keeps_type_alive_until_last_drop() {
    let mut engine = engine();
    let base = engine.live_group_count();
    let st = StructType::new(&mut engine, &[i32_field(Mutability::Var)]).unwrap();
    let clone = st.clone_in(&mut engine);
    st.release(&mut engine);
    assert_eq!(engine.live_group_count(), base + 1);
    clone.release(&mut engine);
    assert_eq!(engine.live_group_count(), base);
}

#[test]
fn build_and_drop_loop_returns_to_baseline() {
    let mut engine = engine();
    let base = engine.live_group_count();
    for _ in 0..100 {
        let mut b = RecGroupBuilder::new();
        let node = b.declare_struct();
        b.define_struct(node, vec![FieldTemplate::ref_(Mutability::Var, true, node)]);
        let g = b.build(&mut engine).unwrap();
        g.release(&mut engine);
    }
    assert_eq!(engine.live_group_count(), base);
}

#[test]
fn cross_group_supertype_pins_until_both_drop() {
    let mut engine = engine();
    let base = engine.live_group_count();
    let mut bb = RecGroupBuilder::new();
    let base_id = bb.declare_struct();
    bb.define_struct_with_finality_and_supertype(
        base_id,
        Finality::NonFinal,
        None,
        vec![FieldTemplate::field(i32_field(Mutability::Const))],
    );
    let base_group = bb.build(&mut engine).unwrap();

    let mut sb = RecGroupBuilder::new();
    let sub_id = sb.declare_struct();
    let super_handle = base_group.struct_(&mut engine, base_id).unwrap();
    sb.define_struct_with_finality_and_supertype(
        sub_id,
        Finality::Final,
        Some(StructSuperType::Type(super_handle)),
        vec![
            FieldTemplate::field(i32_field(Mutability::Const)),
            FieldTemplate::field(i32_field(Mutability::Const)),
        ],
    );
    let sub_group = sb.build(&mut engine).unwrap();
    assert_eq!(engine.live_group_count(), base + 2);

    base_group.release(&mut engine);
    assert_eq!(engine.live_group_count(), base + 2);
    sub_group.release(&mut engine);
    assert_eq!(engine.live_group_count(), base);
}

#[test]
fn interning_a_module_twice_gives_the_same_ids() {
    let mut reg = TypeRegistry::new();
    let field = IrField { mutable: true, storage: IrStorage::Val(IrVal::I64) };
    let module = [
        func(0, None),
        ModuleType { group: 1, finality: Finality::Final, supertype: None, body: CompositeBody::Array(field) },
        ModuleType { group: 1, finality: Finality::Final, supertype: None, body: CompositeBody::Struct(vec![field]) },
    ];
    let (ids1, g1) = reg.intern_module(&module);
    let live = reg.live_group_count();
    let (ids2, g2) = reg.intern_module(&module);
    assert_eq!(ids1, ids2);
    assert_eq!(g1, g2);
    assert_eq!(g1.len(), 2);
    assert_eq!(reg.live_group_count(), live);
    assert_eq!(reg.kind(ids1[0]), Some(AggKind::Func));
    assert_eq!(reg.kind(ids1[1]), Some(AggKind::Array));
    assert_eq!(reg.kind(ids1[2]), Some(AggKind::Struct));
}

#[test]
fn distinct_bodies_get_distinct_ids() {
    let mut reg = TypeRegistry::new();
    let a = IrField { mutable: false, storage: IrStorage::I8 };
    let b = IrField { mutable: false, storage: IrStorage::I16 };
    let (ids, groups) = reg.intern_module(&[
        ModuleType { group: 0, finality: Finality::Final, supertype: None, body: CompositeBody::Array(a) },
        ModuleType { group: 1, finality: Finality::Final, supertype: None, body: CompositeBody::Array(b) },
    ]);
    assert_ne!(ids[0], ids[1]);
    assert_ne!(groups[0], groups[1]);
    assert_eq!(reg.live_group_count(), 2);
}

#[test]
fn a_type_is_its_own_subtype_and_unrelated_types_are_not() {
    let mut reg = TypeRegistry::new();
    let a = IrField { mutable: false, storage: IrStorage::I8 };
    let (ids, _) = reg.intern_module(&[
        func(0, None),
        ModuleType { group: 1, finality: Finality::Final, supertype: None, body: CompositeBody::Array(a) },
    ]);
    assert!(reg.is_subtype(ids[0], ids[0]));
    assert!(!reg.is_subtype(ids[0], ids[1]));
    assert!(!reg.is_subtype(ids[1], ids[0]));
}

#[test]
fn struct_type_over_a_dead_reference_is_refused() {
    let mut engine = engine();
    let dead = CanonicalTypeId(7);
    let field = FieldType::new(
        Mutability::Const,
        StorageType::ValType(ValType::Ref(RefType::new(true, HeapType::ConcreteStruct(dead)))),
    );
    let r = StructType::new(&mut engine, &[field]);
    assert!(matches!(r, Err(TypeError::DeadType)));
    assert_eq!(engine.live_group_count(), 0);
}

#[test]
fn build_reports_an_undefined_member() {
    let mut engine = engine();
    let mut b = RecGroupBuilder::new();
    let _ = b.declare_struct();
    assert!(matches!(b.build(&mut engine), Err(TypeError::Undefined)));
    assert_eq!(engine.live_group_count(), 0);
}

#[test]
fn build_reports_a_reference_to_a_missing_member() {
    let mut engine = engine();
    let mut b = RecGroupBuilder::new();
    let node = b.declare_struct();
    b.define_struct(node, vec![FieldTemplate::ref_(Mutability::Var, true, node + 1)]);
    assert!(matches!(b.build(&mut engine), Err(TypeError::BadIndex)));
    assert_eq!(engine.live_group_count(), 0);
}

#[test]
fn equal_host_struct_types_share_an_id() {
    let mut engine = engine();
    let a = StructType::new(&mut engine, &[i32_field(Mutability::Var)]).unwrap();
    let b = StructType::new(&mut engine, &[i32_field(Mutability::Var)]).unwrap();
    assert_eq!(a.id(), b.id());
    assert_eq!(engine.live_group_count(), 1);
    a.release(&mut engine);
    assert_eq!(engine.live_group_count(), 1);
    b.release(&mut engine);
    assert_eq!(engine.live_group_count(), 0);
}

#[test]
fn a_group_member_handle_outlives_the_group_handle() {
    let mut engine = engine();
    let mut b = RecGroupBuilder::new();
    let node = b.declare_struct();
    b.define_struct(node, vec![FieldTemplate::field(i32_field(Mutability::Const))]);
    let g = b.build(&mut engine).unwrap();
    let st = g.struct_(&mut engine, node).unwrap();
    assert!(g.struct_(&mut engine, node + 1).is_none());
    g.release(&mut engine);
    assert_eq!(engine.live_group_count(), 1);
    st.release(&mut engine);
    assert_eq!(engine.live_group_count(), 0);
}
