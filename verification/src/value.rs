//! Public value and type descriptions (the wasmtime-style boundary types).
use vstd::prelude::*;
use crate::canon::CanonicalTypeId;

verus! {

/// Whether a composite type may be subtyped.
#[derive(Clone, Copy, PartialEq, Eq, Structural, Hash, Debug)]
pub enum Finality {
    Final,
    NonFinal,
}

/// Whether a global or a field can be written.
#[derive(Clone, Copy, PartialEq, Eq, Structural, Hash, Debug)]
pub enum Mutability {
    Const,
    Var,
}

/// A heap type: an abstract hierarchy member or a concrete (engine-canonical) defined type.
#[derive(Clone, Copy, PartialEq, Eq, Structural, Hash, Debug)]
pub enum HeapType {
    Func,
    NoFunc,
    Extern,
    NoExtern,
    Any,
    Eq,
    I31,
    Struct,
    Array,
    Exn,
    NoExn,
    NoneType,
    ConcreteFunc(CanonicalTypeId),
    ConcreteStruct(CanonicalTypeId),
    ConcreteArray(CanonicalTypeId),
}

/// A reference type.
#[derive(Clone, Copy, PartialEq, Eq, Structural, Hash, Debug)]
pub struct RefType {
    pub nullable: bool,
    pub heap: HeapType,
}

impl RefType {
    pub fn new(nullable: bool, heap: HeapType) -> (r: RefType)
        ensures
            r == (RefType { nullable, heap }),
    {
        RefType { nullable, heap }
    }

    pub fn is_nullable(&self) -> (b: bool)
        ensures
            b == self.nullable,
    {
        self.nullable
    }

    pub fn heap_type(&self) -> (h: HeapType)
        ensures
            h == self.heap,
    {
        self.heap
    }
}

/// A value type.
#[derive(Clone, Copy, PartialEq, Eq, Structural, Hash, Debug)]
pub enum ValType {
    I32,
    I64,
    F32,
    F64,
    V128,
    Ref(RefType),
}

/// The storage of a struct field or array element.
#[derive(Clone, Copy, PartialEq, Eq, Structural, Hash, Debug)]
pub enum StorageType {
    I8,
    I16,
    ValType(ValType),
}

/// A struct field or array element type.
#[derive(Clone, Copy, PartialEq, Eq, Structural, Hash, Debug)]
pub struct FieldType {
    pub mutability: Mutability,
    pub element: StorageType,
}

impl FieldType {
    pub fn new(mutability: Mutability, element: StorageType) -> (f: FieldType)
        ensures
            f == (FieldType { mutability, element }),
    {
        FieldType { mutability, element }
    }

    pub fn mutability(&self) -> (m: Mutability)
        ensures
            m == self.mutability,
    {
        self.mutability
    }

    pub fn element_type(&self) -> (s: StorageType)
        ensures
            s == self.element,
    {
        self.element
    }
}

/// A wasm value at the embedder boundary. Floats are carried as their IEEE-754 bit patterns;
/// references as raw store handles (`None` is null).
#[derive(Clone, Copy, PartialEq, Eq, Structural, Debug)]
pub enum Val {
    I32(i32),
    I64(i64),
    F32(u32),
    F64(u64),
    V128(u128),
    FuncRef(Option<u32>),
    ExternRef(Option<u32>),
    AnyRef(Option<u32>),
    ExnRef(Option<u32>),
}

impl Val {
    /// The value of an `i32` (`requires` it is one).
    pub fn unwrap_i32(&self) -> (v: i32)
        requires
            self is I32,
        ensures
            v == self->I32_0,
    {
        match self {
            Val::I32(v) => *v,
            _ => 0,
        }
    }

    /// The value of an `i64` (`requires` it is one).
    pub fn unwrap_i64(&self) -> (v: i64)
        requires
            self is I64,
        ensures
            v == self->I64_0,
    {
        match self {
            Val::I64(v) => *v,
            _ => 0,
        }
    }

    /// The bit pattern of an `f32` (`requires` it is one).
    pub fn unwrap_f32_bits(&self) -> (v: u32)
        requires
            self is F32,
        ensures
            v == self->F32_0,
    {
        match self {
            Val::F32(v) => *v,
            _ => 0,
        }
    }

    /// The bit pattern of an `f64` (`requires` it is one).
    pub fn unwrap_f64_bits(&self) -> (v: u64)
        requires
            self is F64,
        ensures
            v == self->F64_0,
    {
        match self {
            Val::F64(v) => *v,
            _ => 0,
        }
    }

    /// Whether this is a null reference.
    pub fn is_null_ref(&self) -> (b: bool)
        ensures
            b == match *self {
                Val::FuncRef(r) | Val::ExternRef(r) | Val::AnyRef(r) | Val::ExnRef(r) => r is None,
                _ => false,
            },
    {
        match self {
            Val::FuncRef(r) | Val::ExternRef(r) | Val::AnyRef(r) | Val::ExnRef(r) => r.is_none(),
            _ => false,
        }
    }

    /// The null reference of a heap type's hierarchy.
    pub fn null_for_heap(heap: &HeapType) -> (v: Val)
        ensures
            v == match *heap {
                HeapType::Func | HeapType::NoFunc | HeapType::ConcreteFunc(_) => Val::FuncRef(None),
                HeapType::Extern | HeapType::NoExtern => Val::ExternRef(None),
                HeapType::Exn | HeapType::NoExn => Val::ExnRef(None),
                _ => Val::AnyRef(None),
            },
    {
        match heap {
            HeapType::Func | HeapType::NoFunc | HeapType::ConcreteFunc(_) => Val::FuncRef(None),
            HeapType::Extern | HeapType::NoExtern => Val::ExternRef(None),
            HeapType::Exn | HeapType::NoExn => Val::ExnRef(None),
            _ => Val::AnyRef(None),
        }
    }

    /// The default (zero / null) value of a value type.
    pub fn default_for(ty: &ValType) -> (v: Val)
        ensures
            v == match *ty {
                ValType::I32 => Val::I32(0),
                ValType::I64 => Val::I64(0),
                ValType::F32 => Val::F32(0),
                ValType::F64 => Val::F64(0),
                ValType::V128 => Val::V128(0),
                ValType::Ref(rt) => match rt.heap {
                    HeapType::Func | HeapType::NoFunc | HeapType::ConcreteFunc(_) => Val::FuncRef(None),
                    HeapType::Extern | HeapType::NoExtern => Val::ExternRef(None),
                    HeapType::Exn | HeapType::NoExn => Val::ExnRef(None),
                    _ => Val::AnyRef(None),
                },
            },
    {
        match ty {
            ValType::I32 => Val::I32(0),
            ValType::I64 => Val::I64(0),
            ValType::F32 => Val::F32(0),
            ValType::F64 => Val::F64(0),
            ValType::V128 => Val::V128(0),
            ValType::Ref(rt) => Val::null_for_heap(&rt.heap),
        }
    }
}

} // verus!
