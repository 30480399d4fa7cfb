//! The canonical, position-independent type form used as the hash-cons key of a rec group, and
//! the conversions into it from the module IR and from public host-built types.
use vstd::prelude::*;
use crate::canon::{AggKind, CanonicalTypeId, CompositeBody, IrField, IrHeap, IrStorage, IrVal};
use crate::value::{FieldType, Finality, HeapType, Mutability, RefType, StorageType, ValType};

verus! {

/// A reference inside a canonical group: a position in the same group, or an absolute canonical id.
#[derive(Copy, Clone, PartialEq, Eq, Structural, Debug)]
pub enum CanonRef {
    Rel(u32),
    Canon(CanonicalTypeId),
}

#[derive(Copy, Clone, PartialEq, Eq, Structural, Debug)]
pub enum CHeap {
    Abs(u8),
    Concrete(AggKind, CanonRef),
}

#[derive(Copy, Clone, PartialEq, Eq, Structural, Debug)]
pub enum CVal {
    Num(u8),
    Ref(bool, CHeap),
}

#[derive(Copy, Clone, PartialEq, Eq, Structural, Debug)]
pub enum CStore {
    Packed(u8),
    Val(CVal),
}

#[derive(Copy, Clone, PartialEq, Eq, Structural, Debug)]
pub struct CField {
    pub mutable: bool,
    pub storage: CStore,
}

#[derive(Clone, Debug)]
pub enum CBody {
    Func(Vec<CVal>, Vec<CVal>),
    Struct(Vec<CField>),
    Array(CField),
}

#[derive(Clone, Debug)]
pub struct CType {
    pub finality: Finality,
    pub supertype: Option<CanonRef>,
    pub body: CBody,
}

/// The abstract value of a canonical body.
pub ghost enum CBodyView {
    Func(Seq<CVal>, Seq<CVal>),
    Struct(Seq<CField>),
    Array(CField),
}

/// The abstract value of a canonical type.
pub ghost struct CTypeView {
    pub finality: Finality,
    pub supertype: Option<CanonRef>,
    pub body: CBodyView,
}

impl View for CBody {
    type V = CBodyView;

    open spec fn view(&self) -> CBodyView {
        match self {
            CBody::Func(p, r) => CBodyView::Func(p@, r@),
            CBody::Struct(f) => CBodyView::Struct(f@),
            CBody::Array(f) => CBodyView::Array(*f),
        }
    }
}

impl View for CType {
    type V = CTypeView;

    open spec fn view(&self) -> CTypeView {
        CTypeView { finality: self.finality, supertype: self.supertype, body: self.body@ }
    }
}

/// The abstract value of a canonical rec group (the hash-cons key).
pub open spec fn group_view(g: Seq<CType>) -> Seq<CTypeView> {
    Seq::new(g.len(), |i: int| g[i]@)
}

// --- reference mapping while a group is being built ---

/// How a module-relative type index maps into a group key: indices in `[lo, hi)` are siblings
/// (relative positions), any other index `m` is an already-canonical `table[m - table_base]`.
pub struct RefMap<'a> {
    pub lo: u32,
    pub hi: u32,
    pub table: &'a [CanonicalTypeId],
    pub table_base: u32,
}

/// The abstract value of a [`RefMap`].
pub ghost struct RefMapView {
    pub lo: u32,
    pub hi: u32,
    pub table: Seq<CanonicalTypeId>,
    pub table_base: u32,
}

impl<'a> View for RefMap<'a> {
    type V = RefMapView;

    open spec fn view(&self) -> RefMapView {
        RefMapView { lo: self.lo, hi: self.hi, table: self.table@, table_base: self.table_base }
    }
}

pub open spec fn spec_cref(map: RefMapView, m: u32) -> CanonRef {
    if map.lo <= m < map.hi {
        CanonRef::Rel((m - map.lo) as u32)
    } else {
        CanonRef::Canon(map.table[m - map.table_base])
    }
}

/// Whether index `m` is mappable (a sibling, or inside the canonical table).
pub open spec fn cref_ok(map: RefMapView, m: u32) -> bool {
    (map.lo <= m < map.hi) || (map.table_base <= m && m - map.table_base < map.table.len())
}

pub fn cref(map: &RefMap, m: u32) -> (r: CanonRef)
    requires
        cref_ok(map@, m),
    ensures
        r == spec_cref(map@, m),
{
    if map.lo <= m && m < map.hi {
        CanonRef::Rel(m - map.lo)
    } else {
        CanonRef::Canon(map.table[(m - map.table_base) as usize])
    }
}

pub open spec fn heap_refs_ok(h: IrHeap, map: RefMapView) -> bool {
    match h {
        IrHeap::Concrete(idx, _) => cref_ok(map, idx),
        _ => true,
    }
}

pub open spec fn val_refs_ok(v: IrVal, map: RefMapView) -> bool {
    match v {
        IrVal::Ref { heap, .. } => heap_refs_ok(heap, map),
        _ => true,
    }
}

pub open spec fn field_refs_ok(f: IrField, map: RefMapView) -> bool {
    match f.storage {
        IrStorage::Val(v) => val_refs_ok(v, map),
        _ => true,
    }
}

/// Whether every concrete reference of a body is mappable.
pub open spec fn body_refs_ok(b: CompositeBody, map: RefMapView) -> bool {
    match b {
        CompositeBody::Func { params, results } =>
            (forall|i: int| 0 <= i < params@.len() ==> val_refs_ok(#[trigger] params@[i], map))
            && (forall|i: int| 0 <= i < results@.len() ==> val_refs_ok(#[trigger] results@[i], map)),
        CompositeBody::Struct(fields) => forall|i: int| 0 <= i < fields@.len() ==> field_refs_ok(#[trigger] fields@[i], map),
        CompositeBody::Array(f) => field_refs_ok(f, map),
    }
}

/// The compact code of an abstract IR heap type.
pub open spec fn spec_ir_abs_code(h: IrHeap) -> u8 {
    match h {
        IrHeap::Func => 0,
        IrHeap::NoFunc => 1,
        IrHeap::Extern => 2,
        IrHeap::NoExtern => 3,
        IrHeap::Any => 4,
        IrHeap::Eq => 5,
        IrHeap::I31 => 6,
        IrHeap::Struct => 7,
        IrHeap::Array => 8,
        IrHeap::Exn => 9,
        IrHeap::NoExn => 10,
        _ => 11,
    }
}

pub open spec fn spec_heap_key(h: IrHeap, map: RefMapView) -> CHeap {
    match h {
        IrHeap::Concrete(id, kind) => CHeap::Concrete(kind, spec_cref(map, id)),
        other => CHeap::Abs(spec_ir_abs_code(other)),
    }
}

pub open spec fn spec_val_key(v: IrVal, map: RefMapView) -> CVal {
    match v {
        IrVal::I32 => CVal::Num(0),
        IrVal::I64 => CVal::Num(1),
        IrVal::F32 => CVal::Num(2),
        IrVal::F64 => CVal::Num(3),
        IrVal::V128 => CVal::Num(4),
        IrVal::Ref { nullable, heap } => CVal::Ref(nullable, spec_heap_key(heap, map)),
    }
}

pub open spec fn spec_field_key(f: IrField, map: RefMapView) -> CField {
    CField {
        mutable: f.mutable,
        storage: match f.storage {
            IrStorage::I8 => CStore::Packed(0),
            IrStorage::I16 => CStore::Packed(1),
            IrStorage::Val(v) => CStore::Val(spec_val_key(v, map)),
        },
    }
}

/// The canonical key of an IR body: each component translated, references mapped.
pub open spec fn spec_body_key(b: CompositeBody, map: RefMapView) -> CBodyView {
    match b {
        CompositeBody::Func { params, results } => CBodyView::Func(
            params@.map_values(|v: IrVal| spec_val_key(v, map)),
            results@.map_values(|v: IrVal| spec_val_key(v, map)),
        ),
        CompositeBody::Struct(fields) => CBodyView::Struct(fields@.map_values(|f: IrField| spec_field_key(f, map))),
        CompositeBody::Array(f) => CBodyView::Array(spec_field_key(f, map)),
    }
}

/// The compact code of an abstract IR heap type.
pub fn ir_abs_code(h: &IrHeap) -> (c: u8)
    ensures
        c == spec_ir_abs_code(*h),
{
    match h {
        IrHeap::Func => 0,
        IrHeap::NoFunc => 1,
        IrHeap::Extern => 2,
        IrHeap::NoExtern => 3,
        IrHeap::Any => 4,
        IrHeap::Eq => 5,
        IrHeap::I31 => 6,
        IrHeap::Struct => 7,
        IrHeap::Array => 8,
        IrHeap::Exn => 9,
        IrHeap::NoExn => 10,
        _ => 11,
    }
}

pub fn heap_key(h: &IrHeap, map: &RefMap) -> (k: CHeap)
    requires
        heap_refs_ok(*h, map@),
    ensures
        k == spec_heap_key(*h, map@),
{
    match h {
        IrHeap::Concrete(id, kind) => CHeap::Concrete(*kind, cref(map, *id)),
        other => CHeap::Abs(ir_abs_code(other)),
    }
}

pub fn val_key(v: &IrVal, map: &RefMap) -> (k: CVal)
    requires
        val_refs_ok(*v, map@),
    ensures
        k == spec_val_key(*v, map@),
{
    match v {
        IrVal::I32 => CVal::Num(0),
        IrVal::I64 => CVal::Num(1),
        IrVal::F32 => CVal::Num(2),
        IrVal::F64 => CVal::Num(3),
        IrVal::V128 => CVal::Num(4),
        IrVal::Ref { nullable, heap } => CVal::Ref(*nullable, heap_key(heap, map)),
    }
}

pub fn field_key(f: &IrField, map: &RefMap) -> (k: CField)
    requires
        field_refs_ok(*f, map@),
    ensures
        k == spec_field_key(*f, map@),
{
    let storage = match &f.storage {
        IrStorage::I8 => CStore::Packed(0),
        IrStorage::I16 => CStore::Packed(1),
        IrStorage::Val(v) => CStore::Val(val_key(v, map)),
    };
    CField { mutable: f.mutable, storage }
}

fn vals_key(vs: &Vec<IrVal>, map: &RefMap) -> (out: Vec<CVal>)
    requires
        forall|i: int| 0 <= i < vs@.len() ==> val_refs_ok(#[trigger] vs@[i], map@),
    ensures
        out@ == vs@.map_values(|v: IrVal| spec_val_key(v, map@)),
{
    let mut out: Vec<CVal> = Vec::new();
    for i in 0..vs.len()
        invariant
            forall|i: int| 0 <= i < vs@.len() ==> val_refs_ok(#[trigger] vs@[i], map@),
            out@ == vs@.subrange(0, i as int).map_values(|v: IrVal| spec_val_key(v, map@)),
    {
        out.push(val_key(&vs[i], map));
        proof {
            assert(vs@.subrange(0, i + 1) == vs@.subrange(0, i as int).push(vs@[i as int]));
        }
    }
    assert(vs@.subrange(0, vs@.len() as int) == vs@);
    out
}

/// The canonical key of an IR body, references mapped through `map`.
pub fn body_key(b: &CompositeBody, map: &RefMap) -> (k: CBody)
    requires
        body_refs_ok(*b, map@),
    ensures
        k@ == spec_body_key(*b, map@),
{
    match b {
        CompositeBody::Func { params, results } => CBody::Func(vals_key(params, map), vals_key(results, map)),
        CompositeBody::Struct(fields) => {
            let mut out: Vec<CField> = Vec::new();
            for i in 0..fields.len()
                invariant
                    forall|i: int| 0 <= i < fields@.len() ==> field_refs_ok(#[trigger] fields@[i], map@),
                    out@ == fields@.subrange(0, i as int).map_values(|f: IrField| spec_field_key(f, map@)),
            {
                out.push(field_key(&fields[i], map));
                proof {
                    assert(fields@.subrange(0, i + 1) == fields@.subrange(0, i as int).push(fields@[i as int]));
                }
            }
            assert(fields@.subrange(0, fields@.len() as int) == fields@);
            CBody::Struct(out)
        },
        CompositeBody::Array(f) => CBody::Array(field_key(f, map)),
    }
}

// --- public host-built types → canonical bodies ---

/// The compact code of an abstract public heap type (concrete ones handled separately).
pub open spec fn spec_abs_code(h: HeapType) -> u8 {
    match h {
        HeapType::Func => 0,
        HeapType::NoFunc => 1,
        HeapType::Extern => 2,
        HeapType::NoExtern => 3,
        HeapType::Any => 4,
        HeapType::Eq => 5,
        HeapType::I31 => 6,
        HeapType::Struct => 7,
        HeapType::Array => 8,
        HeapType::Exn => 9,
        HeapType::NoExn => 10,
        _ => 11,
    }
}

pub open spec fn spec_pub_heap(h: HeapType) -> CHeap {
    match h {
        HeapType::ConcreteFunc(id) => CHeap::Concrete(AggKind::Func, CanonRef::Canon(id)),
        HeapType::ConcreteStruct(id) => CHeap::Concrete(AggKind::Struct, CanonRef::Canon(id)),
        HeapType::ConcreteArray(id) => CHeap::Concrete(AggKind::Array, CanonRef::Canon(id)),
        other => CHeap::Abs(spec_abs_code(other)),
    }
}

pub open spec fn spec_pub_val(v: ValType) -> CVal {
    match v {
        ValType::I32 => CVal::Num(0),
        ValType::I64 => CVal::Num(1),
        ValType::F32 => CVal::Num(2),
        ValType::F64 => CVal::Num(3),
        ValType::V128 => CVal::Num(4),
        ValType::Ref(rt) => CVal::Ref(rt.nullable, spec_pub_heap(rt.heap)),
    }
}

pub open spec fn spec_pub_field(f: FieldType) -> CField {
    CField {
        mutable: f.mutability == Mutability::Var,
        storage: match f.element {
            StorageType::I8 => CStore::Packed(0),
            StorageType::I16 => CStore::Packed(1),
            StorageType::ValType(v) => CStore::Val(spec_pub_val(v)),
        },
    }
}

pub fn abs_code(h: &HeapType) -> (c: u8)
    ensures
        c == spec_abs_code(*h),
{
    match h {
        HeapType::Func => 0,
        HeapType::NoFunc => 1,
        HeapType::Extern => 2,
        HeapType::NoExtern => 3,
        HeapType::Any => 4,
        HeapType::Eq => 5,
        HeapType::I31 => 6,
        HeapType::Struct => 7,
        HeapType::Array => 8,
        HeapType::Exn => 9,
        HeapType::NoExn => 10,
        _ => 11,
    }
}

pub fn pub_heap(h: &HeapType) -> (k: CHeap)
    ensures
        k == spec_pub_heap(*h),
{
    match h {
        HeapType::ConcreteFunc(id) => CHeap::Concrete(AggKind::Func, CanonRef::Canon(*id)),
        HeapType::ConcreteStruct(id) => CHeap::Concrete(AggKind::Struct, CanonRef::Canon(*id)),
        HeapType::ConcreteArray(id) => CHeap::Concrete(AggKind::Array, CanonRef::Canon(*id)),
        other => CHeap::Abs(abs_code(other)),
    }
}

pub fn pub_val(v: &ValType) -> (k: CVal)
    ensures
        k == spec_pub_val(*v),
{
    match v {
        ValType::I32 => CVal::Num(0),
        ValType::I64 => CVal::Num(1),
        ValType::F32 => CVal::Num(2),
        ValType::F64 => CVal::Num(3),
        ValType::V128 => CVal::Num(4),
        ValType::Ref(rt) => CVal::Ref(rt.is_nullable(), pub_heap(&rt.heap_type())),
    }
}

pub fn pub_field(f: &FieldType) -> (k: CField)
    ensures
        k == spec_pub_field(*f),
{
    let storage = match f.element_type() {
        StorageType::I8 => CStore::Packed(0),
        StorageType::I16 => CStore::Packed(1),
        StorageType::ValType(v) => CStore::Val(pub_val(&v)),
    };
    CField { mutable: matches!(f.mutability(), Mutability::Var), storage }
}

fn pub_vals(vs: &[ValType]) -> (out: Vec<CVal>)
    ensures
        out@ == vs@.map_values(|v: ValType| spec_pub_val(v)),
{
    let mut out: Vec<CVal> = Vec::new();
    for i in 0..vs.len()
        invariant
            out@ == vs@.subrange(0, i as int).map_values(|v: ValType| spec_pub_val(v)),
    {
        out.push(pub_val(&vs[i]));
        proof {
            assert(vs@.subrange(0, i + 1) == vs@.subrange(0, i as int).push(vs@[i as int]));
        }
    }
    assert(vs@.subrange(0, vs@.len() as int) == vs@);
    out
}

/// The canonical body of a host-built function type.
pub fn func_body(params: &[ValType], results: &[ValType]) -> (b: CBody)
    ensures
        b@ == CBodyView::Func(params@.map_values(|v: ValType| spec_pub_val(v)), results@.map_values(|v: ValType| spec_pub_val(v))),
{
    CBody::Func(pub_vals(params), pub_vals(results))
}

/// The canonical body of a host-built struct type.
pub fn struct_body(fields: &[FieldType]) -> (b: CBody)
    ensures
        b@ == CBodyView::Struct(fields@.map_values(|f: FieldType| spec_pub_field(f))),
{
    let mut out: Vec<CField> = Vec::new();
    for i in 0..fields.len()
        invariant
            out@ == fields@.subrange(0, i as int).map_values(|f: FieldType| spec_pub_field(f)),
    {
        out.push(pub_field(&fields[i]));
        proof {
            assert(fields@.subrange(0, i + 1) == fields@.subrange(0, i as int).push(fields@[i as int]));
        }
    }
    assert(fields@.subrange(0, fields@.len() as int) == fields@);
    CBody::Struct(out)
}

/// The canonical body of a host-built array type.
pub fn array_body(field: &FieldType) -> (b: CBody)
    ensures
        b@ == CBodyView::Array(spec_pub_field(*field)),
{
    CBody::Array(pub_field(field))
}

// --- resolution (relative refs → absolute canonical ids) and kind ---

pub open spec fn spec_resolve(r: CanonRef, members: Seq<CanonicalTypeId>) -> CanonicalTypeId {
    match r {
        CanonRef::Rel(p) => members[p as int],
        CanonRef::Canon(c) => c,
    }
}

pub open spec fn ref_ok(r: CanonRef, n: nat) -> bool {
    match r {
        CanonRef::Rel(p) => p < n,
        CanonRef::Canon(_) => true,
    }
}

pub open spec fn cval_ok(v: CVal, n: nat) -> bool {
    match v {
        CVal::Ref(_, CHeap::Concrete(_, r)) => ref_ok(r, n),
        _ => true,
    }
}

pub open spec fn cfield_ok(f: CField, n: nat) -> bool {
    match f.storage {
        CStore::Val(v) => cval_ok(v, n),
        _ => true,
    }
}

/// Whether every relative reference of a body names a position below `n`.
pub open spec fn body_ok(b: CBodyView, n: nat) -> bool {
    match b {
        CBodyView::Func(p, r) => (forall|i: int| 0 <= i < p.len() ==> cval_ok(#[trigger] p[i], n))
            && (forall|i: int| 0 <= i < r.len() ==> cval_ok(#[trigger] r[i], n)),
        CBodyView::Struct(fs) => forall|i: int| 0 <= i < fs.len() ==> cfield_ok(#[trigger] fs[i], n),
        CBodyView::Array(f) => cfield_ok(f, n),
    }
}

pub open spec fn spec_resolve_val(v: CVal, members: Seq<CanonicalTypeId>) -> CVal {
    match v {
        CVal::Ref(n, CHeap::Concrete(k, r)) => CVal::Ref(n, CHeap::Concrete(k, CanonRef::Canon(spec_resolve(r, members)))),
        other => other,
    }
}

pub open spec fn spec_resolve_field(f: CField, members: Seq<CanonicalTypeId>) -> CField {
    CField {
        mutable: f.mutable,
        storage: match f.storage {
            CStore::Val(v) => CStore::Val(spec_resolve_val(v, members)),
            other => other,
        },
    }
}

/// A stored body: every relative reference replaced by the member's absolute canonical id.
pub open spec fn spec_resolve_body(b: CBodyView, members: Seq<CanonicalTypeId>) -> CBodyView {
    match b {
        CBodyView::Func(p, r) => CBodyView::Func(
            p.map_values(|v: CVal| spec_resolve_val(v, members)),
            r.map_values(|v: CVal| spec_resolve_val(v, members)),
        ),
        CBodyView::Struct(fs) => CBodyView::Struct(fs.map_values(|f: CField| spec_resolve_field(f, members))),
        CBodyView::Array(f) => CBodyView::Array(spec_resolve_field(f, members)),
    }
}

pub fn resolve(r: &CanonRef, members: &[CanonicalTypeId]) -> (id: CanonicalTypeId)
    requires
        ref_ok(*r, members@.len()),
    ensures
        id == spec_resolve(*r, members@),
{
    match r {
        CanonRef::Rel(p) => members[*p as usize],
        CanonRef::Canon(c) => *c,
    }
}

fn resolve_val(v: &CVal, members: &[CanonicalTypeId]) -> (out: CVal)
    requires
        cval_ok(*v, members@.len()),
    ensures
        out == spec_resolve_val(*v, members@),
{
    match v {
        CVal::Ref(n, CHeap::Concrete(k, r)) => CVal::Ref(*n, CHeap::Concrete(*k, CanonRef::Canon(resolve(r, members)))),
        other => *other,
    }
}

fn resolve_field(f: &CField, members: &[CanonicalTypeId]) -> (out: CField)
    requires
        cfield_ok(*f, members@.len()),
    ensures
        out == spec_resolve_field(*f, members@),
{
    CField {
        mutable: f.mutable,
        storage: match &f.storage {
            CStore::Val(v) => CStore::Val(resolve_val(v, members)),
            other => *other,
        },
    }
}

fn resolve_vals(vs: &Vec<CVal>, members: &[CanonicalTypeId]) -> (out: Vec<CVal>)
    requires
        forall|i: int| 0 <= i < vs@.len() ==> cval_ok(#[trigger] vs@[i], members@.len()),
    ensures
        out@ == vs@.map_values(|v: CVal| spec_resolve_val(v, members@)),
{
    let mut out: Vec<CVal> = Vec::new();
    for i in 0..vs.len()
        invariant
            forall|i: int| 0 <= i < vs@.len() ==> cval_ok(#[trigger] vs@[i], members@.len()),
            out@ == vs@.subrange(0, i as int).map_values(|v: CVal| spec_resolve_val(v, members@)),
    {
        out.push(resolve_val(&vs[i], members));
        proof {
            assert(vs@.subrange(0, i + 1) == vs@.subrange(0, i as int).push(vs@[i as int]));
        }
    }
    assert(vs@.subrange(0, vs@.len() as int) == vs@);
    out
}

/// Resolves a key body's relative references to the group's member ids.
pub fn resolve_body(b: &CBody, members: &[CanonicalTypeId]) -> (out: CBody)
    requires
        body_ok(b@, members@.len()),
    ensures
        out@ == spec_resolve_body(b@, members@),
{
    match b {
        CBody::Func(p, r) => CBody::Func(resolve_vals(p, members), resolve_vals(r, members)),
        CBody::Struct(fs) => {
            let mut out: Vec<CField> = Vec::new();
            for i in 0..fs.len()
                invariant
                    forall|i: int| 0 <= i < fs@.len() ==> cfield_ok(#[trigger] fs@[i], members@.len()),
                    out@ == fs@.subrange(0, i as int).map_values(|f: CField| spec_resolve_field(f, members@)),
            {
                out.push(resolve_field(&fs[i], members));
                proof {
                    assert(fs@.subrange(0, i + 1) == fs@.subrange(0, i as int).push(fs@[i as int]));
                }
            }
            assert(fs@.subrange(0, fs@.len() as int) == fs@);
            CBody::Struct(out)
        },
        CBody::Array(f) => CBody::Array(resolve_field(f, members)),
    }
}

pub open spec fn spec_body_kind(b: CBodyView) -> AggKind {
    match b {
        CBodyView::Func(..) => AggKind::Func,
        CBodyView::Struct(_) => AggKind::Struct,
        CBodyView::Array(_) => AggKind::Array,
    }
}

/// The hierarchy of a canonical body.
pub fn body_kind(b: &CBody) -> (k: AggKind)
    ensures
        k == spec_body_kind(b@),
{
    match b {
        CBody::Func(..) => AggKind::Func,
        CBody::Struct(_) => AggKind::Struct,
        CBody::Array(_) => AggKind::Array,
    }
}

// --- compact codecs back to public types ---

pub open spec fn spec_num_decode(c: u8) -> ValType {
    match c {
        0 => ValType::I32,
        1 => ValType::I64,
        2 => ValType::F32,
        3 => ValType::F64,
        _ => ValType::V128,
    }
}

pub fn num_decode(c: u8) -> (v: ValType)
    ensures
        v == spec_num_decode(c),
{
    match c {
        0 => ValType::I32,
        1 => ValType::I64,
        2 => ValType::F32,
        3 => ValType::F64,
        _ => ValType::V128,
    }
}

pub open spec fn spec_abs_decode(c: u8) -> HeapType {
    match c {
        0 => HeapType::Func,
        1 => HeapType::NoFunc,
        2 => HeapType::Extern,
        3 => HeapType::NoExtern,
        4 => HeapType::Any,
        5 => HeapType::Eq,
        6 => HeapType::I31,
        7 => HeapType::Struct,
        8 => HeapType::Array,
        9 => HeapType::Exn,
        10 => HeapType::NoExn,
        _ => HeapType::NoneType,
    }
}

pub fn abs_decode(c: u8) -> (h: HeapType)
    ensures
        h == spec_abs_decode(c),
{
    match c {
        0 => HeapType::Func,
        1 => HeapType::NoFunc,
        2 => HeapType::Extern,
        3 => HeapType::NoExtern,
        4 => HeapType::Any,
        5 => HeapType::Eq,
        6 => HeapType::I31,
        7 => HeapType::Struct,
        8 => HeapType::Array,
        9 => HeapType::Exn,
        10 => HeapType::NoExn,
        _ => HeapType::NoneType,
    }
}

/// Decoding an abstract heap-type code gives back the type it encodes.
pub proof fn lemma_abs_code_round_trip(h: HeapType)
    requires
        !(h is ConcreteFunc || h is ConcreteStruct || h is ConcreteArray),
    ensures
        spec_abs_decode(spec_abs_code(h)) == h,
{
}

// --- materialization: canonical → public types ---

pub open spec fn spec_mat_heap(h: CHeap) -> HeapType {
    match h {
        CHeap::Abs(c) => spec_abs_decode(c),
        CHeap::Concrete(kind, r) => {
            let id = match r { CanonRef::Canon(id) => id, CanonRef::Rel(p) => CanonicalTypeId(p) };
            match kind {
                AggKind::Func => HeapType::ConcreteFunc(id),
                AggKind::Struct => HeapType::ConcreteStruct(id),
                AggKind::Array => HeapType::ConcreteArray(id),
            }
        },
    }
}

pub open spec fn spec_mat_val(v: CVal) -> ValType {
    match v {
        CVal::Num(c) => spec_num_decode(c),
        CVal::Ref(n, h) => ValType::Ref(RefType { nullable: n, heap: spec_mat_heap(h) }),
    }
}

pub open spec fn spec_mat_field(f: CField) -> FieldType {
    FieldType {
        mutability: if f.mutable { Mutability::Var } else { Mutability::Const },
        element: match f.storage {
            CStore::Packed(0) => StorageType::I8,
            CStore::Packed(_) => StorageType::I16,
            CStore::Val(v) => StorageType::ValType(spec_mat_val(v)),
        },
    }
}

/// The public heap type of a stored (absolute) canonical heap type.
pub fn mat_heap(h: &CHeap) -> (t: HeapType)
    ensures
        t == spec_mat_heap(*h),
{
    match h {
        CHeap::Abs(c) => abs_decode(*c),
        CHeap::Concrete(kind, r) => {
            let id = match r { CanonRef::Canon(id) => *id, CanonRef::Rel(p) => CanonicalTypeId(*p) };
            match kind {
                AggKind::Func => HeapType::ConcreteFunc(id),
                AggKind::Struct => HeapType::ConcreteStruct(id),
                AggKind::Array => HeapType::ConcreteArray(id),
            }
        },
    }
}

/// The public value type of a stored canonical value type.
pub fn mat_val(v: &CVal) -> (t: ValType)
    ensures
        t == spec_mat_val(*v),
{
    match v {
        CVal::Num(c) => num_decode(*c),
        CVal::Ref(n, h) => ValType::Ref(RefType::new(*n, mat_heap(h))),
    }
}

/// The public field type of a stored canonical field.
pub fn mat_field(f: &CField) -> (t: FieldType)
    ensures
        t == spec_mat_field(*f),
{
    let mutability = if f.mutable { Mutability::Var } else { Mutability::Const };
    let storage = match &f.storage {
        CStore::Packed(0) => StorageType::I8,
        CStore::Packed(_) => StorageType::I16,
        CStore::Val(v) => StorageType::ValType(mat_val(v)),
    };
    FieldType::new(mutability, storage)
}

/// Materializing the canonical form of a host-built value type gives it back.
pub proof fn lemma_pub_val_round_trip(v: ValType)
    ensures
        spec_mat_val(spec_pub_val(v)) == v,
{
}

} // verus!
