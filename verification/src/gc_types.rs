//! Host-built GC types: [`StructType`] and [`ArrayType`] handles and the [`RecGroupBuilder`] for
//! (possibly self-referential) rec groups. A handle holds one registration of its type's group
//! in the engine registry; `release` gives it back, and the group is reclaimed when its last
//! registration goes.
use vstd::prelude::*;
use crate::engine::{Engine, EngineView, same_but_types};
use crate::value::{FieldType, Finality, HeapType, Mutability, StorageType, ValType};
use crate::canon::{AggKind, CanonicalTypeId, CompositeBody, GroupId, IrField, IrHeap, IrStorage, IrVal, ModuleType};
use crate::canon::keys::{CBodyView, CTypeView, CVal, spec_pub_field, spec_pub_heap, cref_ok, body_refs_ok, field_refs_ok};
use crate::canon::intern::{body_live, cfield_live, cval_live, table_live, host_refs_ok, host_map, group_added, single_key, lemma_struct_body_live};
use crate::canon::registry::{type_live, group_live, key_view, released_once, same_but_counts, sat_add};
use crate::canon::pins::{pins_hold, holds_registration};

verus! {

/// Why a host-built type could not be registered.
#[derive(Copy, Clone, PartialEq, Eq, Structural, Debug)]
pub enum TypeError {
    /// A referenced canonical type is not registered.
    DeadType,
    /// The registry's id space is exhausted.
    RegistryFull,
    /// A declared rec-group member was never defined.
    Undefined,
    /// A reference to a rec-group member that was not declared.
    BadIndex,
}

/// Whether a heap type's concrete type (if any) is registered.
fn heap_live(engine: &Engine, h: &HeapType) -> (b: bool)
    ensures
        b == cval_live(CVal::Ref(true, spec_pub_heap(*h)), engine@.types.types@),
{
    match h {
        HeapType::ConcreteFunc(id) | HeapType::ConcreteStruct(id) | HeapType::ConcreteArray(id) => engine.type_kind(*id).is_some(),
        _ => true,
    }
}

/// Whether the concrete type a field references (if any) is registered.
fn field_live(engine: &Engine, f: &FieldType) -> (b: bool)
    ensures
        b == cfield_live(spec_pub_field(*f), engine@.types.types@),
{
    match f.element_type() {
        StorageType::ValType(ValType::Ref(rt)) => heap_live(engine, &rt.heap_type()),
        _ => true,
    }
}

fn fields_live(engine: &Engine, fields: &[FieldType]) -> (b: bool)
    ensures
        b ==> body_live(CBodyView::Struct(fields@.map_values(|f: FieldType| spec_pub_field(f))), engine@.types.types@),
        !b ==> exists|k: int| 0 <= k < fields@.len() && !cfield_live(spec_pub_field(#[trigger] fields@[k]), engine@.types.types@),
{
    let ghost m = fields@.map_values(|f: FieldType| spec_pub_field(f));
    for i in 0..fields.len()
        invariant
            m == fields@.map_values(|f: FieldType| spec_pub_field(f)),
            forall|k: int| 0 <= k < i ==> cfield_live(#[trigger] m[k], engine@.types.types@),
    {
        if !field_live(engine, &fields[i]) {
            proof { assert(!cfield_live(spec_pub_field(fields@[i as int]), engine@.types.types@)); }
            return false;
        }
    }
    true
}

/// A host-built struct type: holds one registration of its (singleton) group.
#[derive(Debug)]
pub struct StructType {
    id: CanonicalTypeId,
}

/// A host-built array type: holds one registration of its (singleton) group.
#[derive(Debug)]
pub struct ArrayType {
    id: CanonicalTypeId,
}

/// Whether the registry of engine state `e` has room for `n` more types and one more group.
pub open spec fn has_room(e: EngineView, n: nat) -> bool {
    &&& e.types.types@.len() + n <= u32::MAX
    &&& e.types.groups@.len() + n < u32::MAX
}

/// The canonical body of a struct with `fields`.
pub open spec fn struct_body(fields: Seq<FieldType>) -> CBodyView {
    CBodyView::Struct(fields.map_values(|f: FieldType| spec_pub_field(f)))
}

/// Engine state `b` is `a` with a singleton group of key `key`, whose one member is `id`,
/// registered once more (found equal, or new).
pub open spec fn registered_single(a: EngineView, b: EngineView, id: CanonicalTypeId, key: Seq<CTypeView>) -> bool {
    &&& same_but_types(a, b)
    &&& exists|g: GroupId| #[trigger] group_added(a.types, b.types, g)
        && key_view(b.types.groups@[g.0 as int]->0.key@) == key
        && b.types.groups@[g.0 as int]->0.members@ == seq![id]
}

/// Engine state `b` is `a` with one more registration of the group owning live type `id`.
pub open spec fn type_retained(a: EngineView, b: EngineView, id: CanonicalTypeId) -> bool {
    let g = a.types.types@[id.0 as int]->0.group.0 as int;
    &&& same_but_types(a, b)
    &&& same_but_counts(&a.types, &b.types)
    &&& b.types.groups@[g]->0.refcount == sat_add(a.types.groups@[g]->0.refcount, 1)
    &&& forall|h: int| 0 <= h < a.types.groups@.len() && h != g ==> #[trigger] b.types.groups@[h] == a.types.groups@[h]
}

/// Engine state `b` is `a` after a handle to type `id` gave its registration back: nothing
/// when the type is not registered, else one registration of its group released.
pub open spec fn type_released(a: EngineView, b: EngineView, id: CanonicalTypeId) -> bool {
    &&& same_but_types(a, b)
    &&& type_live(a.types.types@, id.0 as int) ==> released_once(&a.types, &b.types, a.types.types@[id.0 as int]->0.group.0 as int)
    &&& !type_live(a.types.types@, id.0 as int) ==> b == a
}

/// The group slot owning type `id` in engine state `e`.
pub open spec fn owner_group(e: EngineView, id: CanonicalTypeId) -> int {
    e.types.types@[id.0 as int]->0.group.0 as int
}

/// Registering equal host-built types twice gives one canonical id: the second registration
/// finds the group of the first (which it keeps alive).
pub proof fn lemma_equal_host_types_share_an_id(a: EngineView, b: EngineView, c: EngineView, id1: CanonicalTypeId,
    id2: CanonicalTypeId, key: Seq<CTypeView>)
    requires
        registered_single(a, b, id1, key),
        registered_single(b, c, id2, key),
        c.types.wf(),
    ensures
        id1 == id2,
{
    let g1 = choose|g: GroupId| #[trigger] group_added(a.types, b.types, g)
        && key_view(b.types.groups@[g.0 as int]->0.key@) == key
        && b.types.groups@[g.0 as int]->0.members@ == seq![id1];
    let g2 = choose|g: GroupId| #[trigger] group_added(b.types, c.types, g)
        && key_view(c.types.groups@[g.0 as int]->0.key@) == key
        && c.types.groups@[g.0 as int]->0.members@ == seq![id2];
    assert(group_live(b.types.groups@, g1.0 as int));
    assert(group_live(c.types.groups@, g1.0 as int));
    assert(group_live(c.types.groups@, g2.0 as int));
    assert(key_view(c.types.groups@[g1.0 as int]->0.key@) == key);
    assert(c.types.groups@[g1.0 as int]->0.members@ == seq![id1]);
    assert(g1.0 as int == g2.0 as int);
    assert(seq![id1][0] == id1);
    assert(seq![id2][0] == id2);
}

impl StructType {
    pub closed spec fn spec_id(&self) -> CanonicalTypeId { self.id }

    /// Registers a final struct type with `fields` and no supertype (or finds the equal one,
    /// adding a registration). Fails when the registry is full, or when a field references an
    /// unregistered type.
    pub fn new(engine: &mut Engine, fields: &[FieldType]) -> (r: Result<StructType, TypeError>)
        requires
            old(engine).wf(),
        ensures
            final(engine).wf(),
            !has_room(old(engine)@, 1) ==> r == Err::<StructType, TypeError>(TypeError::RegistryFull) && final(engine)@ == old(engine)@,
            has_room(old(engine)@, 1) && !body_live(struct_body(fields@), old(engine)@.types.types@) ==>
                r == Err::<StructType, TypeError>(TypeError::DeadType) && final(engine)@ == old(engine)@,
            has_room(old(engine)@, 1) && body_live(struct_body(fields@), old(engine)@.types.types@) ==> r is Ok
                && registered_single(old(engine)@, final(engine)@, r->Ok_0.spec_id(), single_key(Finality::Final, None, struct_body(fields@))),
            pins_hold(&old(engine)@.types) && r is Ok ==> holds_registration(&final(engine)@.types, owner_group(final(engine)@, r->Ok_0.spec_id())),
    {
        if !engine.registry_has_room(1) {
            return Err(TypeError::RegistryFull);
        }
        if !fields_live(engine, fields) {
            proof {
                let k = choose|k: int| 0 <= k < fields@.len() && !cfield_live(spec_pub_field(#[trigger] fields@[k]), engine@.types.types@);
                let m = fields@.map_values(|f: FieldType| spec_pub_field(f));
                assert(m.len() == fields@.len());
                assert(m[k] == spec_pub_field(fields@[k]));
                assert(!cfield_live(m[k], engine@.types.types@));
                assert(struct_body(fields@) == CBodyView::Struct(m));
                assert(!body_live(CBodyView::Struct(m), engine@.types.types@)) by {
                    let t = engine@.types.types@;
                    if body_live(CBodyView::Struct(m), t) {
                        lemma_struct_body_live(m, t, k);
                    }
                }
            }
            return Err(TypeError::DeadType);
        }
        let ghost before = engine@;
        let (id, g) = engine.intern_struct_type(Finality::Final, None, fields);
        proof {
            assert(group_added(before.types, engine@.types, g));
            engine.lemma_wf();
            assert(engine@.types.groups@[g.0 as int]->0.members@[0] == id);
        }
        Ok(StructType { id })
    }

    /// The canonical type id.
    pub fn id(&self) -> (r: CanonicalTypeId)
        ensures
            r == self.spec_id(),
    {
        self.id
    }

    /// Another handle to the same type (one more registration of its group).
    pub fn clone_in(&self, engine: &mut Engine) -> (r: StructType)
        requires
            old(engine).wf(),
            type_live(old(engine)@.types.types@, self.spec_id().0 as int),
        ensures
            final(engine).wf(),
            r.spec_id() == self.spec_id(),
            type_retained(old(engine)@, final(engine)@, self.spec_id()),
            pins_hold(&old(engine)@.types) ==> holds_registration(&final(engine)@.types, owner_group(old(engine)@, self.spec_id())),
    {
        engine.incref_type(self.id);
        StructType { id: self.id }
    }

    /// Gives the handle's registration back.
    pub fn release(self, engine: &mut Engine)
        requires
            old(engine).wf(),
        ensures
            final(engine).wf(),
            type_released(old(engine)@, final(engine)@, self.spec_id()),
            holds_registration(&old(engine)@.types, owner_group(old(engine)@, self.spec_id())) ==> pins_hold(&final(engine)@.types),
    {
        if engine.type_kind(self.id).is_some() {
            engine.decref_type(self.id);
        }
    }
}

impl ArrayType {
    pub closed spec fn spec_id(&self) -> CanonicalTypeId { self.id }

    /// Registers a final array type with element `field` and no supertype (or finds the equal
    /// one). Fails when the registry is full, or when the element references an unregistered type.
    pub fn new(engine: &mut Engine, field: FieldType) -> (r: Result<ArrayType, TypeError>)
        requires
            old(engine).wf(),
        ensures
            final(engine).wf(),
            !has_room(old(engine)@, 1) ==> r == Err::<ArrayType, TypeError>(TypeError::RegistryFull) && final(engine)@ == old(engine)@,
            has_room(old(engine)@, 1) && !cfield_live(spec_pub_field(field), old(engine)@.types.types@) ==>
                r == Err::<ArrayType, TypeError>(TypeError::DeadType) && final(engine)@ == old(engine)@,
            has_room(old(engine)@, 1) && cfield_live(spec_pub_field(field), old(engine)@.types.types@) ==> r is Ok
                && registered_single(old(engine)@, final(engine)@, r->Ok_0.spec_id(),
                    single_key(Finality::Final, None, CBodyView::Array(spec_pub_field(field)))),
            pins_hold(&old(engine)@.types) && r is Ok ==> holds_registration(&final(engine)@.types, owner_group(final(engine)@, r->Ok_0.spec_id())),
    {
        if !engine.registry_has_room(1) {
            return Err(TypeError::RegistryFull);
        }
        if !field_live(engine, &field) {
            return Err(TypeError::DeadType);
        }
        let ghost before = engine@;
        let (id, g) = engine.intern_array_type(Finality::Final, None, &field);
        proof {
            assert(group_added(before.types, engine@.types, g));
            engine.lemma_wf();
            assert(engine@.types.groups@[g.0 as int]->0.members@[0] == id);
        }
        Ok(ArrayType { id })
    }

    /// The canonical type id.
    pub fn id(&self) -> (r: CanonicalTypeId)
        ensures
            r == self.spec_id(),
    {
        self.id
    }

    /// Gives the handle's registration back.
    pub fn release(self, engine: &mut Engine)
        requires
            old(engine).wf(),
        ensures
            final(engine).wf(),
            type_released(old(engine)@, final(engine)@, self.spec_id()),
            holds_registration(&old(engine)@.types, owner_group(old(engine)@, self.spec_id())) ==> pins_hold(&final(engine)@.types),
    {
        if engine.type_kind(self.id).is_some() {
            engine.decref_type(self.id);
        }
    }
}

/// A field of a rec-group member: a plain field type, or a reference to a member of the group.
#[derive(Clone, Copy, Debug)]
pub enum FieldTemplate {
    Field(FieldType),
    Member { mutability: Mutability, nullable: bool, index: u32 },
}

impl FieldTemplate {
    /// A reference field to member `index` of the group being built.
    pub fn ref_(mutability: Mutability, nullable: bool, index: u32) -> (t: FieldTemplate)
        ensures
            t == (FieldTemplate::Member { mutability, nullable, index }),
    {
        FieldTemplate::Member { mutability, nullable, index }
    }

    /// A plain field.
    pub fn field(f: FieldType) -> (t: FieldTemplate)
        ensures
            t == FieldTemplate::Field(f),
    {
        FieldTemplate::Field(f)
    }
}

/// The declared supertype of a rec-group member: an existing struct type, or a member.
#[derive(Debug)]
pub enum StructSuperType {
    Type(StructType),
    Member(u32),
}

/// A defined member of a rec group being built.
#[derive(Debug)]
pub struct StructDef {
    pub finality: Finality,
    pub supertype: Option<StructSuperType>,
    pub fields: Vec<FieldTemplate>,
}

/// Builds a rec group of struct types that may refer to each other.
#[derive(Debug)]
pub struct RecGroupBuilder {
    defs: Vec<Option<StructDef>>,
}

/// A registered rec group: holds one registration of its group.
#[derive(Debug)]
pub struct RecGroup {
    group: GroupId,
    members: Vec<CanonicalTypeId>,
}

/// Every concrete index of an IR value, field or body is below `bound`.
pub open spec fn val_below(v: IrVal, bound: int) -> bool {
    match v {
        IrVal::Ref { heap: IrHeap::Concrete(m, _), .. } => m < bound,
        _ => true,
    }
}

pub open spec fn field_below(f: IrField, bound: int) -> bool {
    match f.storage {
        IrStorage::Val(v) => val_below(v, bound),
        _ => true,
    }
}

pub open spec fn member_below(t: ModuleType, bound: int) -> bool {
    &&& match t.supertype { Some(m) => m < bound, None => true }
    &&& match t.body {
        CompositeBody::Struct(fs) => forall|i: int| 0 <= i < fs@.len() ==> field_below(#[trigger] fs@[i], bound),
        _ => false,
    }
}

proof fn lemma_member_below_mono(t: ModuleType, a: int, b: int)
    requires
        member_below(t, a),
        a <= b,
    ensures
        member_below(t, b),
{
    match t.body {
        CompositeBody::Struct(fs) => {
            assert forall|i: int| 0 <= i < fs@.len() implies field_below(#[trigger] fs@[i], b) by {
                assert(field_below(fs@[i], a));
            }
        },
        _ => {},
    }
}

proof fn lemma_below_host_ok(members: Seq<ModuleType>, externals: Seq<CanonicalTypeId>)
    requires
        members.len() + externals.len() <= u32::MAX,
        forall|i: int| 0 <= i < members.len() ==> member_below(#[trigger] members[i], (members.len() + externals.len()) as int),
    ensures
        host_refs_ok(members, externals),
{
    let map = host_map(members.len() as int, externals);
    assert forall|i: int| 0 <= i < members.len() implies {
        &&& body_refs_ok((#[trigger] members[i]).body, map)
        &&& match members[i].supertype { Some(m) => cref_ok(map, m), None => true }
    } by {
        let t = members[i];
        assert(member_below(t, (members.len() + externals.len()) as int));
        match t.body {
            CompositeBody::Struct(fs) => {
                assert forall|k: int| 0 <= k < fs@.len() implies field_refs_ok(#[trigger] fs@[k], map) by {
                    assert(field_below(fs@[k], (members.len() + externals.len()) as int));
                }
            },
            _ => {},
        }
    }
}

/// The canonical id a heap type names, if it is concrete.
pub open spec fn heap_ext(h: HeapType) -> Seq<CanonicalTypeId> {
    match h {
        HeapType::ConcreteFunc(id) | HeapType::ConcreteStruct(id) | HeapType::ConcreteArray(id) => seq![id],
        _ => Seq::empty(),
    }
}

/// The canonical id a field template names outside the group, if any.
pub open spec fn template_ext(t: FieldTemplate) -> Seq<CanonicalTypeId> {
    match t {
        FieldTemplate::Field(f) => match f.element {
            StorageType::ValType(ValType::Ref(rt)) => heap_ext(rt.heap),
            _ => Seq::empty(),
        },
        FieldTemplate::Member { .. } => Seq::empty(),
    }
}

pub open spec fn templates_ext(fs: Seq<FieldTemplate>) -> Seq<CanonicalTypeId>
    decreases fs.len(),
{
    if fs.len() == 0 { Seq::empty() } else { templates_ext(fs.drop_last()) + template_ext(fs.last()) }
}

/// The canonical ids a member definition names outside the group, in order: its supertype
/// handle's, then its fields'.
pub open spec fn def_ext(d: Option<StructDef>) -> Seq<CanonicalTypeId> {
    match d {
        Some(d) => (match d.supertype {
            Some(StructSuperType::Type(t)) => seq![t.spec_id()],
            _ => Seq::empty(),
        }) + templates_ext(d.fields@),
        None => Seq::empty(),
    }
}

/// The canonical ids all member definitions name outside the group, in order.
pub open spec fn defs_ext(defs: Seq<Option<StructDef>>) -> Seq<CanonicalTypeId>
    decreases defs.len(),
{
    if defs.len() == 0 { Seq::empty() } else { defs_ext(defs.drop_last()) + def_ext(defs.last()) }
}

/// Whether a field template names an existing member of a group of `n`.
pub open spec fn template_ok(t: FieldTemplate, n: int) -> bool {
    match t {
        FieldTemplate::Member { index, .. } => index < n,
        FieldTemplate::Field(_) => true,
    }
}

/// What is wrong with a member definition in a group of `n`: not defined, or naming a member
/// that does not exist (as its supertype or in a field).
pub open spec fn def_error(d: Option<StructDef>, n: int) -> Option<TypeError> {
    match d {
        None => Some(TypeError::Undefined),
        Some(d) => if (match d.supertype { Some(StructSuperType::Member(m)) => m >= n, _ => false })
            || exists|j: int| 0 <= j < d.fields@.len() && !template_ok(#[trigger] d.fields@[j], n) {
            Some(TypeError::BadIndex)
        } else {
            None
        },
    }
}

/// The first member definition error from member `i` on.
pub open spec fn first_error(defs: Seq<Option<StructDef>>, i: int) -> Option<TypeError>
    decreases defs.len() - i,
{
    if i >= defs.len() || i < 0 {
        None
    } else {
        match def_error(defs[i], defs.len() as int) {
            Some(e) => Some(e),
            None => first_error(defs, i + 1),
        }
    }
}

/// Why building a group from `defs` fails in engine state `e`, checking in this order: the
/// first bad member definition; too many member and outside references for the index space;
/// an outside reference to an unregistered type; a full registry.
pub open spec fn build_error(defs: Seq<Option<StructDef>>, e: EngineView) -> Option<TypeError> {
    match first_error(defs, 0) {
        Some(x) => Some(x),
        None => if defs.len() + defs_ext(defs).len() >= u32::MAX {
            Some(TypeError::RegistryFull)
        } else if !table_live(defs_ext(defs), e.types.types@) {
            Some(TypeError::DeadType)
        } else if !has_room(e, defs.len()) {
            Some(TypeError::RegistryFull)
        } else {
            None
        },
    }
}

proof fn lemma_defs_ext_step(defs: Seq<Option<StructDef>>, i: int)
    requires
        0 <= i < defs.len(),
    ensures
        defs_ext(defs.take(i + 1)) == defs_ext(defs.take(i)) + def_ext(defs[i]),
{
    assert(defs.take(i + 1).drop_last() =~= defs.take(i));
}

proof fn lemma_templates_ext_step(fs: Seq<FieldTemplate>, j: int)
    requires
        0 <= j < fs.len(),
    ensures
        templates_ext(fs.take(j + 1)) == templates_ext(fs.take(j)) + template_ext(fs[j]),
{
    assert(fs.take(j + 1).drop_last() =~= fs.take(j));
}

proof fn lemma_defs_ext_prefix(defs: Seq<Option<StructDef>>, i: int)
    requires
        0 <= i <= defs.len(),
    ensures
        defs_ext(defs.take(i)).len() <= defs_ext(defs).len(),
    decreases defs.len() - i,
{
    if i < defs.len() {
        lemma_defs_ext_step(defs, i);
        lemma_defs_ext_prefix(defs, i + 1);
    } else {
        assert(defs.take(i) =~= defs);
    }
}

proof fn lemma_templates_ext_prefix(fs: Seq<FieldTemplate>, j: int)
    requires
        0 <= j <= fs.len(),
    ensures
        templates_ext(fs.take(j)).len() <= templates_ext(fs).len(),
    decreases fs.len() - j,
{
    if j < fs.len() {
        lemma_templates_ext_step(fs, j);
        lemma_templates_ext_prefix(fs, j + 1);
    } else {
        assert(fs.take(j) =~= fs);
    }
}

/// The IR heap type of a public heap type; a concrete one becomes external `n + k`, with its id
/// appended to `externals`.
fn heap_ir(h: HeapType, n: u32, externals: &mut Vec<CanonicalTypeId>) -> (r: IrHeap)
    requires
        n as nat + old(externals)@.len() < u32::MAX,
    ensures
        val_below(IrVal::Ref { nullable: true, heap: r }, n + final(externals)@.len()),
        final(externals)@ == old(externals)@ + heap_ext(h),
{
    let ghost e0 = externals@;
    let r = match h {
        HeapType::Func => IrHeap::Func,
        HeapType::NoFunc => IrHeap::NoFunc,
        HeapType::Extern => IrHeap::Extern,
        HeapType::NoExtern => IrHeap::NoExtern,
        HeapType::Any => IrHeap::Any,
        HeapType::Eq => IrHeap::Eq,
        HeapType::I31 => IrHeap::I31,
        HeapType::Struct => IrHeap::Struct,
        HeapType::Array => IrHeap::Array,
        HeapType::Exn => IrHeap::Exn,
        HeapType::NoExn => IrHeap::NoExn,
        HeapType::NoneType => IrHeap::NoneType,
        HeapType::ConcreteFunc(id) => {
            let k = externals.len() as u32;
            externals.push(id);
            IrHeap::Concrete(n + k, AggKind::Func)
        },
        HeapType::ConcreteStruct(id) => {
            let k = externals.len() as u32;
            externals.push(id);
            IrHeap::Concrete(n + k, AggKind::Struct)
        },
        HeapType::ConcreteArray(id) => {
            let k = externals.len() as u32;
            externals.push(id);
            IrHeap::Concrete(n + k, AggKind::Array)
        },
    };
    proof { assert(externals@ =~= e0 + heap_ext(h)); }
    r
}

/// The IR field of a field template in a group of `n` members.
fn field_ir(t: FieldTemplate, n: u32, externals: &mut Vec<CanonicalTypeId>) -> (r: Result<IrField, TypeError>)
    requires
        n as nat + old(externals)@.len() < u32::MAX,
    ensures
        r is Ok ==> field_below(r->Ok_0, n + final(externals)@.len()),
        r is Ok <==> template_ok(t, n as int),
        final(externals)@ == old(externals)@ + template_ext(t),
{
    let ghost e0 = externals@;
    proof { assert(e0 + Seq::<CanonicalTypeId>::empty() =~= e0); }
    match t {
        FieldTemplate::Member { mutability, nullable, index } => {
            if index >= n {
                return Err(TypeError::BadIndex);
            }
            Ok(IrField {
                mutable: matches!(mutability, Mutability::Var),
                storage: IrStorage::Val(IrVal::Ref { nullable, heap: IrHeap::Concrete(index, AggKind::Struct) }),
            })
        },
        FieldTemplate::Field(f) => {
            let mutable = matches!(f.mutability(), Mutability::Var);
            let storage = match f.element_type() {
                StorageType::I8 => IrStorage::I8,
                StorageType::I16 => IrStorage::I16,
                StorageType::ValType(v) => IrStorage::Val(match v {
                    ValType::I32 => IrVal::I32,
                    ValType::I64 => IrVal::I64,
                    ValType::F32 => IrVal::F32,
                    ValType::F64 => IrVal::F64,
                    ValType::V128 => IrVal::V128,
                    ValType::Ref(rt) => IrVal::Ref { nullable: rt.is_nullable(), heap: heap_ir(rt.heap_type(), n, externals) },
                }),
            };
            Ok(IrField { mutable, storage })
        },
    }
}

impl RecGroupBuilder {
    /// An empty builder.
    pub fn new() -> (b: RecGroupBuilder)
        ensures
            b.spec_len() == 0,
    {
        RecGroupBuilder { defs: Vec::new() }
    }

    pub closed spec fn spec_len(&self) -> nat { self.defs@.len() }

    /// Declares a new struct member and returns its index.
    pub fn declare_struct(&mut self) -> (i: u32)
        requires
            old(self).spec_len() < u32::MAX,
        ensures
            i == old(self).spec_len(),
            final(self).spec_len() == old(self).spec_len() + 1,
    {
        let i = self.defs.len() as u32;
        self.defs.push(None);
        i
    }

    /// Defines member `index` as a final struct with no supertype.
    pub fn define_struct(&mut self, index: u32, fields: Vec<FieldTemplate>)
        requires
            index < old(self).spec_len(),
        ensures
            final(self).spec_len() == old(self).spec_len(),
            final(self).spec_defs() == old(self).spec_defs().update(index as int,
                Some(StructDef { finality: Finality::Final, supertype: None, fields })),
    {
        self.defs.set(index as usize, Some(StructDef { finality: Finality::Final, supertype: None, fields }));
    }

    /// Defines member `index` with a finality and an optional supertype.
    pub fn define_struct_with_finality_and_supertype(&mut self, index: u32, finality: Finality,
        supertype: Option<StructSuperType>, fields: Vec<FieldTemplate>)
        requires
            index < old(self).spec_len(),
        ensures
            final(self).spec_len() == old(self).spec_len(),
            final(self).spec_defs() == old(self).spec_defs().update(index as int, Some(StructDef { finality, supertype, fields })),
    {
        self.defs.set(index as usize, Some(StructDef { finality, supertype, fields }));
    }

    pub closed spec fn spec_defs(&self) -> Seq<Option<StructDef>> { self.defs@ }

    /// Registers the group (or finds the equal one, adding a registration). The supertype
    /// handles the builder holds are released either way. Fails as [`build_error`] says.
    pub fn build(self, engine: &mut Engine) -> (r: Result<RecGroup, TypeError>)
        requires
            old(engine).wf(),
        ensures
            final(engine).wf(),
            same_but_types(old(engine)@, final(engine)@),
            r is Ok <==> build_error(self.spec_defs(), old(engine)@) is None,
            r matches Err(e) ==> build_error(self.spec_defs(), old(engine)@) == Some(e),
            r matches Ok(g) ==> g.spec_members().len() == self.spec_len(),
    {
        let n = self.defs.len();
        let mut held: Vec<CanonicalTypeId> = Vec::new();
        for i in 0..n
            invariant
                n == self.defs@.len(),
        {
            match &self.defs[i] {
                Some(d) => match &d.supertype {
                    Some(StructSuperType::Type(t)) => held.push(t.id),
                    _ => {},
                },
                None => {},
            }
        }
        let ghost start = engine@;
        let r = self.build_members(engine);
        for i in 0..held.len()
            invariant
                engine.wf(),
                same_but_types(start, engine@),
        {
            let id = held[i];
            if engine.type_kind(id).is_some() {
                engine.decref_type(id);
            }
        }
        r
    }

    /// The error of member definition `i`, if any.
    fn def_check(&self, i: usize) -> (r: Option<TypeError>)
        requires
            i < self.defs@.len(),
        ensures
            r == def_error(self.defs@[i as int], self.defs@.len() as int),
    {
        let n = self.defs.len();
        match &self.defs[i] {
            None => Some(TypeError::Undefined),
            Some(d) => {
                match &d.supertype {
                    Some(StructSuperType::Member(m)) => if *m as usize >= n {
                        return Some(TypeError::BadIndex);
                    },
                    _ => {},
                }
                for j in 0..d.fields.len()
                    invariant
                        n == self.defs@.len(),
                        self.defs@[i as int] == Some(*d),
                        forall|k: int| 0 <= k < j ==> template_ok(#[trigger] d.fields@[k], n as int),
                {
                    match d.fields[j] {
                        FieldTemplate::Member { index, .. } => if index as usize >= n {
                            proof { assert(!template_ok(d.fields@[j as int], n as int)); }
                            return Some(TypeError::BadIndex);
                        },
                        FieldTemplate::Field(_) => {},
                    }
                }
                None
            },
        }
    }

    /// Finds the first member definition error.
    fn check_defs(&self) -> (r: Option<TypeError>)
        ensures
            r == first_error(self.defs@, 0),
    {
        let n = self.defs.len();
        for i in 0..n
            invariant
                n == self.defs@.len(),
                first_error(self.defs@, 0) == first_error(self.defs@, i as int),
        {
            match self.def_check(i) {
                Some(e) => return Some(e),
                None => {},
            }
        }
        None
    }

    /// The IR of member `i` (whose definition has no error), appending the outside ids it names.
    #[verifier::rlimit(40)]
    fn member_ir(&self, i: usize, externals: &mut Vec<CanonicalTypeId>) -> (r: ModuleType)
        requires
            i < self.defs@.len(),
            def_error(self.defs@[i as int], self.defs@.len() as int) is None,
            self.defs@.len() + old(externals)@.len() + def_ext(self.defs@[i as int]).len() < u32::MAX,
        ensures
            final(externals)@ == old(externals)@ + def_ext(self.defs@[i as int]),
            member_below(r, (self.defs@.len() + final(externals)@.len()) as int),
    {
        let n = self.defs.len();
        let d = match &self.defs[i] {
            Some(d) => d,
            None => return ModuleType { group: 0, finality: Finality::Final, supertype: None, body: CompositeBody::Struct(Vec::new()) },
        };
        let ghost e0 = externals@;
        let ghost total = def_ext(self.defs@[i as int]).len();
        let supertype = match &d.supertype {
            None => None,
            Some(StructSuperType::Member(m)) => Some(*m),
            Some(StructSuperType::Type(t)) => {
                let k = externals.len() as u32;
                externals.push(t.id);
                Some(n as u32 + k)
            },
        };
        let ghost sup = externals@;
        proof {
            lemma_templates_ext_prefix(d.fields@, 0);
            assert(d.fields@.take(0) =~= Seq::<FieldTemplate>::empty());
            assert(sup =~= e0 + (match d.supertype {
                Some(StructSuperType::Type(t)) => seq![t.spec_id()],
                _ => Seq::empty(),
            }) + templates_ext(d.fields@.take(0)));
        }
        let mut fields: Vec<IrField> = Vec::new();
        for j in 0..d.fields.len()
            invariant
                n == self.defs@.len(),
                self.defs@[i as int] == Some(*d),
                def_error(self.defs@[i as int], n as int) is None,
                total == def_ext(self.defs@[i as int]).len(),
                n + e0.len() + total < u32::MAX,
                externals@ == sup + templates_ext(d.fields@.take(j as int)),
                sup.len() + templates_ext(d.fields@).len() == e0.len() + total,
                fields@.len() == j,
                match supertype { Some(m) => m < n + externals@.len(), None => true },
                forall|k: int| 0 <= k < fields@.len() ==> field_below(#[trigger] fields@[k], n + externals@.len()),
        {
            let ghost e_before = externals@.len();
            proof {
                lemma_templates_ext_prefix(d.fields@, j as int);
                lemma_templates_ext_step(d.fields@, j as int);
                lemma_templates_ext_prefix(d.fields@, j + 1);
                if !template_ok(d.fields@[j as int], n as int) {
                    assert(def_error(self.defs@[i as int], n as int) is Some);
                }
            }
            let f = match field_ir(d.fields[j], n as u32, externals) {
                Ok(f) => f,
                Err(_) => IrField { mutable: false, storage: IrStorage::I8 },
            };
            proof {
                assert(externals@ =~= sup + templates_ext(d.fields@.take(j + 1)));
                assert forall|k: int| 0 <= k < fields@.len() implies field_below(#[trigger] fields@[k], n + externals@.len()) by {
                    assert(field_below(fields@[k], n + e_before));
                }
            }
            fields.push(f);
        }
        proof {
            assert(d.fields@.take(d.fields@.len() as int) =~= d.fields@);
            assert(externals@ =~= e0 + def_ext(self.defs@[i as int]));
        }
        let ghost fv = fields@;
        let t = ModuleType { group: 0, finality: d.finality, supertype, body: CompositeBody::Struct(fields) };
        proof {
            assert(t.body == CompositeBody::Struct(fields));
            assert forall|q: int| 0 <= q < fv.len() implies field_below(#[trigger] fv[q], n + externals@.len()) by {}
        }
        t
    }

    fn build_members(&self, engine: &mut Engine) -> (r: Result<RecGroup, TypeError>)
        requires
            old(engine).wf(),
        ensures
            final(engine).wf(),
            same_but_types(old(engine)@, final(engine)@),
            r is Ok <==> build_error(self.defs@, old(engine)@) is None,
            r matches Err(e) ==> build_error(self.defs@, old(engine)@) == Some(e) && final(engine)@ == old(engine)@,
            r matches Ok(g) ==> g.members@.len() == self.defs@.len(),
    {
        let n = self.defs.len();
        match self.check_defs() {
            Some(e) => return Err(e),
            None => {},
        }
        proof { lemma_no_first_error(self.defs@, 0); }
        if n >= 0xffff_ffff {
            return Err(TypeError::RegistryFull);
        }
        let mut members: Vec<ModuleType> = Vec::new();
        let mut externals: Vec<CanonicalTypeId> = Vec::new();
        let ghost defs = self.defs@;
        for i in 0..n
            invariant
                n == self.defs@.len(),
                defs == self.defs@,
                engine.wf(),
                engine@ == old(engine)@,
                forall|k: int| 0 <= k < n ==> #[trigger] def_error(defs[k], n as int) is None,
                first_error(defs, 0) is None,
                members@.len() == i,
                externals@ == defs_ext(defs.take(i as int)),
                n + externals@.len() <= u32::MAX,
                forall|k: int| 0 <= k < members@.len() ==> member_below(#[trigger] members@[k], n + externals@.len()),
        {
            proof {
                lemma_defs_ext_step(defs, i as int);
                lemma_defs_ext_prefix(defs, i + 1);
            }
            if n as u128 + externals.len() as u128 + self.ext_count(i) >= 0xffff_ffff {
                proof { lemma_defs_ext_prefix(defs, i + 1); }
                return Err(TypeError::RegistryFull);
            }
            let ghost e_before = externals@.len();
            let t = self.member_ir(i, &mut externals);
            proof {
                assert forall|k: int| 0 <= k < members@.len() implies member_below(#[trigger] members@[k], n + externals@.len()) by {
                    lemma_member_below_mono(members@[k], n + e_before, n + externals@.len());
                }
            }
            members.push(t);
        }
        proof { assert(defs.take(n as int) =~= defs); }
        if n + externals.len() >= 0xffff_ffff {
            return Err(TypeError::RegistryFull);
        }
        for k in 0..externals.len()
            invariant
                engine.wf(),
                engine@ == old(engine)@,
                externals@ == defs_ext(defs),
                defs == self.defs@,
                n == defs.len(),
                first_error(defs, 0) is None,
                n + externals@.len() < u32::MAX,
                forall|q: int| 0 <= q < k ==> type_live(engine@.types.types@, (#[trigger] externals@[q]).0 as int),
        {
            if engine.type_kind(externals[k]).is_none() {
                proof {
                    assert(!type_live(old(engine)@.types.types@, defs_ext(defs)[k as int].0 as int));
                    assert(!table_live(defs_ext(defs), old(engine)@.types.types@));
                }
                return Err(TypeError::DeadType);
            }
        }
        if !engine.registry_has_room(n) {
            return Err(TypeError::RegistryFull);
        }
        proof {
            lemma_below_host_ok(members@, externals@);
        }
        let (ids, g) = engine.intern_host_group(members.as_slice(), externals.as_slice());
        proof {
            engine.lemma_wf();
            let rec = engine@.types.groups@[g.0 as int]->0;
            assert(key_view(rec.key@).len() == members@.len());
        }
        Ok(RecGroup { group: g, members: ids })
    }

    /// How many outside ids member `i`'s definition names.
    fn ext_count(&self, i: usize) -> (r: u128)
        requires
            i < self.defs@.len(),
        ensures
            r == def_ext(self.defs@[i as int]).len(),
            r <= 0x1_0000_0000_0000_0000,
    {
        match &self.defs[i] {
            None => 0,
            Some(d) => {
                let mut c: u128 = match &d.supertype {
                    Some(StructSuperType::Type(_)) => 1,
                    _ => 0,
                };
                for j in 0..d.fields.len()
                    invariant
                        self.defs@[i as int] == Some(*d),
                        c == (match d.supertype { Some(StructSuperType::Type(t)) => 1nat, _ => 0nat }) + templates_ext(d.fields@.take(j as int)).len(),
                        c <= j + 1,
                {
                    proof { lemma_templates_ext_step(d.fields@, j as int); }
                    c = c + template_ext_count(&d.fields[j]);
                }
                proof { assert(d.fields@.take(d.fields@.len() as int) =~= d.fields@); }
                c
            },
        }
    }
}

/// How many outside ids a field template names.
fn template_ext_count(t: &FieldTemplate) -> (r: u128)
    ensures
        r == template_ext(*t).len(),
        r <= 1,
{
    match t {
        FieldTemplate::Field(f) => match f.element_type() {
            StorageType::ValType(ValType::Ref(rt)) => match rt.heap_type() {
                HeapType::ConcreteFunc(_) | HeapType::ConcreteStruct(_) | HeapType::ConcreteArray(_) => 1,
                _ => 0,
            },
            _ => 0,
        },
        FieldTemplate::Member { .. } => 0,
    }
}

proof fn lemma_no_first_error(defs: Seq<Option<StructDef>>, i: int)
    requires
        0 <= i,
        first_error(defs, i) is None,
    ensures
        forall|k: int| i <= k < defs.len() ==> #[trigger] def_error(defs[k], defs.len() as int) is None,
    decreases defs.len() - i,
{
    if i < defs.len() {
        lemma_no_first_error(defs, i + 1);
    }
}

impl RecGroup {
    pub closed spec fn spec_group(&self) -> GroupId { self.group }
    pub closed spec fn spec_members(&self) -> Seq<CanonicalTypeId> { self.members@ }

    /// The group id.
    pub fn group(&self) -> (g: GroupId)
        ensures
            g == self.spec_group(),
    {
        self.group
    }

    /// A handle to member `index` (one more registration of the group), or `None` when there is
    /// no such member or it is no longer registered.
    pub fn struct_(&self, engine: &mut Engine, index: u32) -> (r: Option<StructType>)
        requires
            old(engine).wf(),
        ensures
            final(engine).wf(),
            index < self.spec_members().len() && type_live(old(engine)@.types.types@, self.spec_members()[index as int].0 as int) ==> {
                &&& r matches Some(t) && t.spec_id() == self.spec_members()[index as int]
                &&& type_retained(old(engine)@, final(engine)@, self.spec_members()[index as int])
            },
            !(index < self.spec_members().len() && type_live(old(engine)@.types.types@, self.spec_members()[index as int].0 as int)) ==>
                r is None && final(engine)@ == old(engine)@,
            pins_hold(&old(engine)@.types) && r is Some ==> holds_registration(&final(engine)@.types, owner_group(old(engine)@, r->Some_0.spec_id())),
    {
        if index as usize >= self.members.len() {
            return None;
        }
        let id = self.members[index as usize];
        if engine.type_kind(id).is_none() {
            return None;
        }
        engine.incref_type(id);
        Some(StructType { id })
    }

    /// Gives the group's registration back.
    pub fn release(self, engine: &mut Engine)
        requires
            old(engine).wf(),
        ensures
            final(engine).wf(),
            same_but_types(old(engine)@, final(engine)@),
            (self.spec_group().0 as int) < old(engine)@.types.groups@.len() ==>
                released_once(&old(engine)@.types, &final(engine)@.types, self.spec_group().0 as int),
            (self.spec_group().0 as int) >= old(engine)@.types.groups@.len() ==> final(engine)@ == old(engine)@,
            holds_registration(&old(engine)@.types, self.spec_group().0 as int) ==> pins_hold(&final(engine)@.types),
    {
        proof { engine.lemma_wf(); }
        if (self.group.0 as usize) < engine.group_slots() {
            engine.release_group(self.group);
        }
    }
}

} // verus!
