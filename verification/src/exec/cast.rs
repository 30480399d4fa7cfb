//! GC casts and reference equality: whether a reference belongs to a heap type (`ref.test`,
//! `ref.cast`, `br_on_cast[_fail]`), and `ref.eq`. Abstract heap types match by hierarchy;
//! concrete ones by declared subtyping of canonical type ids in the engine registry.
use vstd::prelude::*;
use crate::canon::{AggKind, CanonicalTypeId, IrHeap};
use crate::canon::registry::spec_is_subtype;
use crate::engine::Engine;
use crate::trap::Trap;
use crate::value::Val;

verus! {

/// What the store knows of a non-null reference, as far as a cast reads it.
#[derive(Copy, Clone, PartialEq, Eq, Structural, Debug)]
pub enum RefObject {
    /// A function, with the canonical id of its signature.
    Func(CanonicalTypeId),
    /// An external (host) reference.
    Extern,
    /// An `i31` value.
    I31(u32),
    /// A GC struct, with its canonical type id.
    Struct(CanonicalTypeId),
    /// A GC array, with its canonical type id.
    Array(CanonicalTypeId),
    /// An external reference converted into the `any` hierarchy.
    ExternAny,
    /// An exception.
    Exn,
}

/// Whether a reference (`None` is null) belongs to heap type `target`, whose canonical id is
/// `target_id` when it is concrete: null matches when the type is nullable; abstract types by
/// hierarchy; concrete types when the reference's own canonical type is a registered declared
/// subtype of `target_id`.
pub open spec fn spec_matches(obj: Option<RefObject>, target: IrHeap, nullable: bool, target_id: CanonicalTypeId,
    types: Seq<Option<crate::canon::registry::TypeSlot>>) -> bool
{
    match obj {
        None => nullable,
        Some(o) => match target {
            IrHeap::Any => o is I31 || o is Struct || o is Array || o is ExternAny,
            IrHeap::Eq => o is I31 || o is Struct || o is Array,
            IrHeap::I31 => o is I31,
            IrHeap::Struct => o is Struct,
            IrHeap::Array => o is Array,
            IrHeap::Func => o is Func,
            IrHeap::Extern => o is Extern,
            IrHeap::Exn => o is Exn,
            IrHeap::NoFunc | IrHeap::NoExtern | IrHeap::NoExn | IrHeap::NoneType => false,
            IrHeap::Concrete(_, kind) => match own_type_id(o, kind) {
                Some(id) => id.0 < types.len() && spec_is_subtype(types, id, target_id),
                None => false,
            },
        },
    }
}

/// The abstract heap types form the WebAssembly hierarchies: a null reference belongs to a type
/// exactly when the type is nullable; `i31`, struct and array references belong to `eq` and to
/// `any`, each to its own abstract type and to no other; a converted external reference belongs
/// to `any` only; functions, host references and exceptions belong to `func`, `extern` and `exn`
/// alone; no non-null reference belongs to a bottom type; and a reference that belongs to a
/// concrete struct or array type belongs to `eq`, one of a concrete function type to `func`.
#[verifier::spinoff_prover]
pub proof fn lemma_heap_hierarchy(o: RefObject, nullable: bool, t: CanonicalTypeId, types: Seq<Option<crate::canon::registry::TypeSlot>>)
    ensures
        forall|h: IrHeap| #[trigger] spec_matches(None, h, nullable, t, types) == nullable,
        (o is I31 || o is Struct || o is Array) ==> spec_matches(Some(o), IrHeap::Eq, nullable, t, types)
            && spec_matches(Some(o), IrHeap::Any, nullable, t, types),
        o is ExternAny ==> spec_matches(Some(o), IrHeap::Any, nullable, t, types)
            && !spec_matches(Some(o), IrHeap::Eq, nullable, t, types),
        (o is Func || o is Extern || o is Exn) ==> !spec_matches(Some(o), IrHeap::Any, nullable, t, types)
            && !spec_matches(Some(o), IrHeap::Eq, nullable, t, types),
        spec_matches(Some(o), IrHeap::I31, nullable, t, types) <==> o is I31,
        spec_matches(Some(o), IrHeap::Struct, nullable, t, types) <==> o is Struct,
        spec_matches(Some(o), IrHeap::Array, nullable, t, types) <==> o is Array,
        spec_matches(Some(o), IrHeap::Func, nullable, t, types) <==> o is Func,
        spec_matches(Some(o), IrHeap::Extern, nullable, t, types) <==> o is Extern,
        spec_matches(Some(o), IrHeap::Exn, nullable, t, types) <==> o is Exn,
        !spec_matches(Some(o), IrHeap::NoFunc, nullable, t, types),
        !spec_matches(Some(o), IrHeap::NoExtern, nullable, t, types),
        !spec_matches(Some(o), IrHeap::NoExn, nullable, t, types),
        !spec_matches(Some(o), IrHeap::NoneType, nullable, t, types),
        forall|i: u32| #[trigger] spec_matches(Some(o), IrHeap::Concrete(i, AggKind::Struct), nullable, t, types)
            ==> spec_matches(Some(o), IrHeap::Eq, nullable, t, types),
        forall|i: u32| #[trigger] spec_matches(Some(o), IrHeap::Concrete(i, AggKind::Array), nullable, t, types)
            ==> spec_matches(Some(o), IrHeap::Eq, nullable, t, types),
        forall|i: u32| #[trigger] spec_matches(Some(o), IrHeap::Concrete(i, AggKind::Func), nullable, t, types)
            ==> spec_matches(Some(o), IrHeap::Func, nullable, t, types),
{
}

/// Subsumption among abstract heap types: whatever belongs to `i31`, `struct` or `array` belongs
/// to `eq`, and whatever belongs to `eq` belongs to `any`.
pub proof fn lemma_heap_subsumption(r: Option<RefObject>, nullable: bool, t: CanonicalTypeId, types: Seq<Option<crate::canon::registry::TypeSlot>>)
    ensures
        spec_matches(r, IrHeap::I31, nullable, t, types) ==> spec_matches(r, IrHeap::Eq, nullable, t, types),
        spec_matches(r, IrHeap::Struct, nullable, t, types) ==> spec_matches(r, IrHeap::Eq, nullable, t, types),
        spec_matches(r, IrHeap::Array, nullable, t, types) ==> spec_matches(r, IrHeap::Eq, nullable, t, types),
        spec_matches(r, IrHeap::Eq, nullable, t, types) ==> spec_matches(r, IrHeap::Any, nullable, t, types),
        spec_matches(r, IrHeap::NoFunc, nullable, t, types) ==> spec_matches(r, IrHeap::Func, nullable, t, types),
        spec_matches(r, IrHeap::NoExtern, nullable, t, types) ==> spec_matches(r, IrHeap::Extern, nullable, t, types),
        spec_matches(r, IrHeap::NoExn, nullable, t, types) ==> spec_matches(r, IrHeap::Exn, nullable, t, types),
        spec_matches(r, IrHeap::NoneType, nullable, t, types) ==> spec_matches(r, IrHeap::I31, nullable, t, types)
            && spec_matches(r, IrHeap::Struct, nullable, t, types) && spec_matches(r, IrHeap::Array, nullable, t, types),
{
}

/// The canonical type of a reference, as a concrete target of `kind` reads it: a function's
/// signature for a function type, a struct's or array's type for an aggregate type.
pub open spec fn own_type_id(o: RefObject, kind: AggKind) -> Option<CanonicalTypeId> {
    match (kind, o) {
        (AggKind::Func, RefObject::Func(id)) => Some(id),
        (AggKind::Struct, RefObject::Struct(id)) | (AggKind::Struct, RefObject::Array(id))
        | (AggKind::Array, RefObject::Struct(id)) | (AggKind::Array, RefObject::Array(id)) => Some(id),
        _ => None,
    }
}

fn type_id_for(o: &RefObject, kind: AggKind) -> (r: Option<CanonicalTypeId>)
    ensures
        r == own_type_id(*o, kind),
{
    match (kind, o) {
        (AggKind::Func, RefObject::Func(id)) => Some(*id),
        (AggKind::Struct, RefObject::Struct(id)) | (AggKind::Struct, RefObject::Array(id))
        | (AggKind::Array, RefObject::Struct(id)) | (AggKind::Array, RefObject::Array(id)) => Some(*id),
        _ => None,
    }
}

/// Whether reference `obj` (`None` is null) belongs to heap type `target`; `target_id` is the
/// canonical id of a concrete target.
pub fn matches_heaptype(engine: &Engine, obj: Option<RefObject>, target: &IrHeap, nullable: bool, target_id: CanonicalTypeId)
    -> (b: bool)
    requires
        engine.wf(),
    ensures
        b == spec_matches(obj, *target, nullable, target_id, engine@.types.types@),
{
    let o = match obj {
        None => return nullable,
        Some(o) => o,
    };
    match target {
        IrHeap::Any => matches!(o, RefObject::I31(_) | RefObject::Struct(_) | RefObject::Array(_) | RefObject::ExternAny),
        IrHeap::Eq => matches!(o, RefObject::I31(_) | RefObject::Struct(_) | RefObject::Array(_)),
        IrHeap::I31 => matches!(o, RefObject::I31(_)),
        IrHeap::Struct => matches!(o, RefObject::Struct(_)),
        IrHeap::Array => matches!(o, RefObject::Array(_)),
        IrHeap::Func => matches!(o, RefObject::Func(_)),
        IrHeap::Extern => matches!(o, RefObject::Extern),
        IrHeap::Exn => matches!(o, RefObject::Exn),
        IrHeap::NoFunc | IrHeap::NoExtern | IrHeap::NoExn | IrHeap::NoneType => false,
        IrHeap::Concrete(_, kind) => match type_id_for(&o, *kind) {
            Some(id) => engine.is_subtype(id, target_id),
            None => false,
        },
    }
}

/// `ref.test`: 1 when the reference belongs to the type, else 0.
pub fn ref_test(engine: &Engine, obj: Option<RefObject>, target: &IrHeap, nullable: bool, target_id: CanonicalTypeId) -> (r: i32)
    requires
        engine.wf(),
    ensures
        r == (if spec_matches(obj, *target, nullable, target_id, engine@.types.types@) { 1i32 } else { 0i32 }),
{
    if matches_heaptype(engine, obj, target, nullable, target_id) { 1 } else { 0 }
}

/// `ref.cast`: succeeds when the reference belongs to the type, else traps.
pub fn ref_cast(engine: &Engine, obj: Option<RefObject>, target: &IrHeap, nullable: bool, target_id: CanonicalTypeId)
    -> (r: Result<(), Trap>)
    requires
        engine.wf(),
    ensures
        r == (if spec_matches(obj, *target, nullable, target_id, engine@.types.types@) { Ok::<(), Trap>(()) }
            else { Err::<(), Trap>(Trap::CastFailure) }),
{
    if matches_heaptype(engine, obj, target, nullable, target_id) { Ok(()) } else { Err(Trap::CastFailure) }
}

/// `br_on_cast` (`on_fail` false) and `br_on_cast_fail` (`on_fail` true): whether the branch
/// is taken.
pub fn br_on_cast_taken(engine: &Engine, obj: Option<RefObject>, target: &IrHeap, nullable: bool, target_id: CanonicalTypeId,
    on_fail: bool) -> (b: bool)
    requires
        engine.wf(),
    ensures
        b == (spec_matches(obj, *target, nullable, target_id, engine@.types.types@) != on_fail),
{
    matches_heaptype(engine, obj, target, nullable, target_id) != on_fail
}

/// `ref.eq` on two `eqref` operands: equal when both are null, or both name the same object
/// (the same raw handle).
pub fn ref_eq(a: &Val, b: &Val) -> (r: bool)
    requires
        a is AnyRef,
        b is AnyRef,
    ensures
        r == (a->AnyRef_0 == b->AnyRef_0),
{
    match (a, b) {
        (Val::AnyRef(None), Val::AnyRef(None)) => true,
        (Val::AnyRef(Some(x)), Val::AnyRef(Some(y))) => *x == *y,
        _ => false,
    }
}

} // verus!
