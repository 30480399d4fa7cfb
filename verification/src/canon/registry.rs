//! The engine-owned canonical type registry: whole rec groups are hash-consed into canonical type
//! ids (cross-module identity by structure), reference-counted per group, and reclaimed (with
//! the groups they pin) when the count drops to zero.
use vstd::prelude::*;
use crate::canon::{AggKind, CanonicalTypeId, GroupId};
use crate::canon::keys::{CBody, CBodyView, CField, CHeap, CStore, CType, CTypeView, CVal, CanonRef, group_view, ref_ok, body_ok, spec_body_kind, spec_resolve, spec_resolve_body, body_kind, resolve, resolve_body};
use crate::value::{Finality};
use crate::canon::pins::{lemma_owned_count_same, pending_live, pins_hold, pins_hold_with, holds_registration, lemma_counts_grow, lemma_intern_pins, ids_ms, lemma_ids_ms_push,
    lemma_ids_ms_empty, lemma_pins_mono, lemma_decrement_pins, lemma_reclaim_pins, lemma_incref_pins};
use vstd::multiset::Multiset;

verus! {

/// A registered canonical type (body references resolved to absolute canonical ids).
#[derive(Clone, Debug)]
pub struct CanonType {
    pub kind: AggKind,
    pub finality: Finality,
    pub supertype: Option<CanonicalTypeId>,
    pub body: CBody,
}

/// A live type slot: the type and the group that owns it.
#[derive(Clone, Debug)]
pub struct TypeSlot {
    pub ty: CanonType,
    pub group: GroupId,
}

/// A live group: its key, its member type ids (in group order) and its registration count.
#[derive(Clone, Debug)]
pub struct GroupRecord {
    pub key: Vec<CType>,
    pub members: Vec<CanonicalTypeId>,
    pub refcount: u32,
}

/// The engine-owned canonical type registry. Slots of reclaimed types and groups are recycled
/// through free lists. A group's registration count saturates at `u32::MAX`, which pins it.
#[derive(Debug)]
pub struct TypeRegistry {
    pub types: Vec<Option<TypeSlot>>,
    pub free_types: Vec<CanonicalTypeId>,
    pub groups: Vec<Option<GroupRecord>>,
    pub free_groups: Vec<GroupId>,
}

// --- abstract views ---

pub open spec fn key_view(key: Seq<CType>) -> Seq<CTypeView> {
    group_view(key)
}

pub open spec fn ids_of(members: Seq<CanonicalTypeId>) -> Seq<u32> {
    members.map_values(|m: CanonicalTypeId| m.0)
}

/// Whether group slot `g` holds a live group.
pub open spec fn group_live(groups: Seq<Option<GroupRecord>>, g: int) -> bool {
    0 <= g < groups.len() && groups[g] is Some
}

/// Whether type slot `t` holds a live type.
pub open spec fn type_live(types: Seq<Option<TypeSlot>>, t: int) -> bool {
    0 <= t < types.len() && types[t] is Some
}

// --- outgoing cross-group edges of a key ---

pub open spec fn val_edges(v: CVal) -> Seq<CanonicalTypeId> {
    match v {
        CVal::Ref(_, CHeap::Concrete(_, CanonRef::Canon(id))) => seq![id],
        _ => Seq::empty(),
    }
}

pub open spec fn field_edges(f: CField) -> Seq<CanonicalTypeId> {
    match f.storage {
        CStore::Val(v) => val_edges(v),
        _ => Seq::empty(),
    }
}

pub open spec fn vals_edges(s: Seq<CVal>) -> Seq<CanonicalTypeId>
    decreases s.len(),
{
    if s.len() == 0 { Seq::empty() } else { vals_edges(s.drop_last()) + val_edges(s.last()) }
}

pub open spec fn fields_edges(s: Seq<CField>) -> Seq<CanonicalTypeId>
    decreases s.len(),
{
    if s.len() == 0 { Seq::empty() } else { fields_edges(s.drop_last()) + field_edges(s.last()) }
}

pub open spec fn body_edges(b: CBodyView) -> Seq<CanonicalTypeId> {
    match b {
        CBodyView::Func(p, r) => vals_edges(p) + vals_edges(r),
        CBodyView::Struct(fs) => fields_edges(fs),
        CBodyView::Array(f) => field_edges(f),
    }
}

pub open spec fn type_edges(t: CTypeView) -> Seq<CanonicalTypeId> {
    (match t.supertype {
        Some(CanonRef::Canon(id)) => seq![id],
        _ => Seq::empty(),
    }) + body_edges(t.body)
}

/// The absolute canonical ids a group key references outside itself, one per occurrence.
pub open spec fn key_edges(k: Seq<CTypeView>) -> Seq<CanonicalTypeId>
    decreases k.len(),
{
    if k.len() == 0 { Seq::empty() } else { key_edges(k.drop_last()) + type_edges(k.last()) }
}

/// Whether every absolute reference of a key names a type slot below `n`.
pub open spec fn edges_below(k: Seq<CTypeView>, n: nat) -> bool {
    forall|i: int| 0 <= i < key_edges(k).len() ==> (#[trigger] key_edges(k)[i]).0 < n
}

/// Whether every relative reference of a key names one of its members.
pub open spec fn key_rel_ok(k: Seq<CTypeView>) -> bool {
    forall|i: int| 0 <= i < k.len() ==> {
        &&& (match (#[trigger] k[i]).supertype { Some(r) => ref_ok(r, k.len()), None => true })
        &&& body_ok(k[i].body, k.len())
    }
}

/// The stored form of key entry `pos` with the group's members.
pub open spec fn stored_type(k: CTypeView, members: Seq<CanonicalTypeId>) -> (AggKind, Finality, Option<CanonicalTypeId>, CBodyView) {
    (
        spec_body_kind(k.body),
        k.finality,
        match k.supertype { Some(r) => Some(spec_resolve(r, members)), None => None },
        spec_resolve_body(k.body, members),
    )
}

pub open spec fn slot_view(s: TypeSlot) -> (AggKind, Finality, Option<CanonicalTypeId>, CBodyView) {
    (s.ty.kind, s.ty.finality, s.ty.supertype, s.ty.body@)
}

impl TypeRegistry {
    /// The registry's structural invariant.
    pub open spec fn wf(&self) -> bool {
        let types = self.types@;
        let groups = self.groups@;
        &&& types.len() <= u32::MAX
        &&& groups.len() <= u32::MAX
        // every live group: counted, keyed, members live and owned by it
        &&& forall|g: int| #[trigger] group_live(groups, g) ==> {
            let rec = groups[g]->0;
            &&& rec.refcount >= 1
            &&& rec.members@.len() == rec.key@.len()
            &&& rec.members@.no_duplicates()
            &&& key_rel_ok(key_view(rec.key@))
            &&& edges_below(key_view(rec.key@), types.len())
            &&& forall|p: int| 0 <= p < rec.members@.len() ==> {
                let m = (#[trigger] rec.members@[p]).0 as int;
                &&& type_live(types, m)
                &&& types[m]->0.group.0 == g
                &&& slot_view(types[m]->0) == stored_type(key_view(rec.key@)[p], rec.members@)
            }
        }
        // every live type: owned by a live group that lists it
        &&& forall|t: int| #[trigger] type_live(types, t) ==> {
            let g = types[t]->0.group.0 as int;
            &&& group_live(groups, g)
            &&& groups[g]->0.members@.contains(CanonicalTypeId(t as u32))
            &&& match types[t]->0.ty.supertype { Some(s) => s.0 < types.len(), None => true }
        }
        // hash-consing: no two live groups share a key
        &&& forall|g1: int, g2: int| #[trigger] group_live(groups, g1) && #[trigger] group_live(groups, g2)
            && key_view(groups[g1]->0.key@) == key_view(groups[g2]->0.key@) ==> g1 == g2
        // free lists: distinct, in range, naming dead slots
        &&& self.free_types@.no_duplicates()
        &&& forall|i: int| 0 <= i < self.free_types@.len() ==> {
            let t = (#[trigger] self.free_types@[i]).0 as int;
            0 <= t < types.len() && types[t] is None
        }
        &&& self.free_groups@.no_duplicates()
        &&& forall|i: int| 0 <= i < self.free_groups@.len() ==> {
            let g = (#[trigger] self.free_groups@[i]).0 as int;
            0 <= g < groups.len() && groups[g] is None
        }
    }

    /// Creates an empty registry.
    pub fn new() -> (r: TypeRegistry)
        ensures
            r.wf(),
            r.types@.len() == 0,
            r.groups@.len() == 0,
    {
        TypeRegistry { types: Vec::new(), free_types: Vec::new(), groups: Vec::new(), free_groups: Vec::new() }
    }

    /// The hierarchy of a canonical type id, if it is registered.
    pub fn kind(&self, id: CanonicalTypeId) -> (k: Option<AggKind>)
        ensures
            k == (if type_live(self.types@, id.0 as int) { Some(self.types@[id.0 as int]->0.ty.kind) } else { None }),
    {
        let i = id.index();
        if i < self.types.len() {
            match &self.types[i] {
                Some(slot) => Some(slot.ty.kind),
                None => None,
            }
        } else {
            None
        }
    }

    /// The finality of a registered type.
    pub fn finality(&self, id: CanonicalTypeId) -> (f: Finality)
        requires
            type_live(self.types@, id.0 as int),
        ensures
            f == self.types@[id.0 as int]->0.ty.finality,
    {
        match &self.types[id.index()] {
            Some(slot) => slot.ty.finality,
            None => Finality::Final,
        }
    }
}


/// The number of live groups among the first `n` slots.
pub open spec fn live_count(groups: Seq<Option<GroupRecord>>, n: int) -> nat
    decreases n,
{
    if n <= 0 { 0 } else { live_count(groups, n - 1) + (if groups[n - 1] is Some { 1nat } else { 0nat }) }
}

/// Whether walking the supertype chain from `cur` for at most `fuel` steps meets `sup`.
pub open spec fn chain_reaches(types: Seq<Option<TypeSlot>>, cur: CanonicalTypeId, sup: CanonicalTypeId, fuel: nat) -> bool
    decreases fuel,
{
    if cur == sup {
        true
    } else if fuel == 0 {
        false
    } else {
        match (if type_live(types, cur.0 as int) { types[cur.0 as int]->0.ty.supertype } else { None }) {
            Some(next) => chain_reaches(types, next, sup, (fuel - 1) as nat),
            None => false,
        }
    }
}

/// Whether `sub` is a declared subtype of `sup`: `sup` lies on `sub`'s supertype chain. A chain
/// cannot be longer than the number of type slots without repeating, which bounds the walk.
pub open spec fn spec_is_subtype(types: Seq<Option<TypeSlot>>, sub: CanonicalTypeId, sup: CanonicalTypeId) -> bool {
    chain_reaches(types, sub, sup, types.len())
}

/// Every type is a subtype of itself.
pub proof fn lemma_subtype_reflexive(types: Seq<Option<TypeSlot>>, id: CanonicalTypeId)
    ensures
        spec_is_subtype(types, id, id),
{
}

/// A longer walk reaches whatever a shorter one does.
proof fn lemma_chain_fuel_mono(types: Seq<Option<TypeSlot>>, cur: CanonicalTypeId, sup: CanonicalTypeId, f1: nat, f2: nat)
    requires
        f1 <= f2,
        chain_reaches(types, cur, sup, f1),
    ensures
        chain_reaches(types, cur, sup, f2),
    decreases f1,
{
    if cur != sup && f1 > 0 {
        let next = types[cur.0 as int]->0.ty.supertype->0;
        lemma_chain_fuel_mono(types, next, sup, (f1 - 1) as nat, (f2 - 1) as nat);
    }
}

/// Subtyping only goes up declared supertypes: a type that is a subtype of another, different
/// type is registered, has a declared supertype, and that supertype is a subtype of the other; a
/// type with no declared supertype (or not registered) is a subtype of itself alone.
pub proof fn lemma_subtype_goes_up(types: Seq<Option<TypeSlot>>, sub: CanonicalTypeId, sup: CanonicalTypeId)
    ensures
        spec_is_subtype(types, sub, sup) && sub != sup ==> {
            &&& type_live(types, sub.0 as int)
            &&& types[sub.0 as int]->0.ty.supertype is Some
            &&& spec_is_subtype(types, types[sub.0 as int]->0.ty.supertype->0, sup)
        },
        (!type_live(types, sub.0 as int) || types[sub.0 as int]->0.ty.supertype is None) ==>
            (spec_is_subtype(types, sub, sup) <==> sub == sup),
{
    if spec_is_subtype(types, sub, sup) && sub != sup {
        let next = types[sub.0 as int]->0.ty.supertype->0;
        lemma_chain_fuel_mono(types, next, sup, (types.len() - 1) as nat, types.len());
    }
}

/// A registered type is a subtype of its declared supertype.
pub proof fn lemma_declared_supertype_is_subtype(types: Seq<Option<TypeSlot>>, id: CanonicalTypeId)
    requires
        type_live(types, id.0 as int),
        types[id.0 as int]->0.ty.supertype is Some,
    ensures
        spec_is_subtype(types, id, types[id.0 as int]->0.ty.supertype->0),
{
    let s = types[id.0 as int]->0.ty.supertype->0;
    if id != s {
        assert(chain_reaches(types, s, s, (types.len() - 1) as nat));
    }
}

fn copy_cvals(v: &Vec<CVal>) -> (r: Vec<CVal>)
    ensures
        r@ == v@,
{
    let mut r: Vec<CVal> = Vec::new();
    for i in 0..v.len()
        invariant
            r@ == v@.subrange(0, i as int),
    {
        r.push(v[i]);
        proof { assert(v@.subrange(0, i + 1) == v@.subrange(0, i as int).push(v@[i as int])); }
    }
    assert(v@.subrange(0, v@.len() as int) == v@);
    r
}

fn copy_cfields(v: &Vec<CField>) -> (r: Vec<CField>)
    ensures
        r@ == v@,
{
    let mut r: Vec<CField> = Vec::new();
    for i in 0..v.len()
        invariant
            r@ == v@.subrange(0, i as int),
    {
        r.push(v[i]);
        proof { assert(v@.subrange(0, i + 1) == v@.subrange(0, i as int).push(v@[i as int])); }
    }
    assert(v@.subrange(0, v@.len() as int) == v@);
    r
}

fn cvals_eq(a: &Vec<CVal>, b: &Vec<CVal>) -> (r: bool)
    ensures
        r == (a@ == b@),
{
    if a.len() != b.len() {
        return false;
    }
    for i in 0..a.len()
        invariant
            a@.len() == b@.len(),
            forall|j: int| 0 <= j < i ==> a@[j] == b@[j],
    {
        if a[i] != b[i] {
            return false;
        }
    }
    assert(a@ =~= b@);
    true
}

fn cfields_eq(a: &Vec<CField>, b: &Vec<CField>) -> (r: bool)
    ensures
        r == (a@ == b@),
{
    if a.len() != b.len() {
        return false;
    }
    for i in 0..a.len()
        invariant
            a@.len() == b@.len(),
            forall|j: int| 0 <= j < i ==> a@[j] == b@[j],
    {
        if a[i] != b[i] {
            return false;
        }
    }
    assert(a@ =~= b@);
    true
}

fn ctype_eq(a: &CType, b: &CType) -> (r: bool)
    ensures
        r == (a@ == b@),
{
    if a.finality != b.finality {
        return false;
    }
    let sup_eq = match (a.supertype, b.supertype) {
        (None, None) => true,
        (Some(x), Some(y)) => x == y,
        _ => false,
    };
    if !sup_eq {
        return false;
    }
    match (&a.body, &b.body) {
        (CBody::Func(p1, r1), CBody::Func(p2, r2)) => cvals_eq(p1, p2) && cvals_eq(r1, r2),
        (CBody::Struct(f1), CBody::Struct(f2)) => cfields_eq(f1, f2),
        (CBody::Array(f1), CBody::Array(f2)) => *f1 == *f2,
        _ => false,
    }
}

/// Whether two group keys are equal.
fn key_eq(a: &Vec<CType>, b: &Vec<CType>) -> (r: bool)
    ensures
        r == (key_view(a@) == key_view(b@)),
{
    if a.len() != b.len() {
        assert(key_view(a@).len() != key_view(b@).len());
        return false;
    }
    for i in 0..a.len()
        invariant
            a@.len() == b@.len(),
            forall|j: int| 0 <= j < i ==> a@[j]@ == b@[j]@,
    {
        if !ctype_eq(&a[i], &b[i]) {
            assert(key_view(a@)[i as int] != key_view(b@)[i as int]);
            return false;
        }
    }
    assert(key_view(a@) =~= key_view(b@));
    true
}

fn push_val_edges(v: &CVal, out: &mut Vec<CanonicalTypeId>)
    ensures
        final(out)@ == old(out)@ + val_edges(*v),
{
    match v {
        CVal::Ref(_, CHeap::Concrete(_, CanonRef::Canon(id))) => {
            out.push(*id);
        },
        _ => {
            assert(old(out)@ + Seq::<CanonicalTypeId>::empty() =~= old(out)@);
        },
    }
}

fn push_field_edges(f: &CField, out: &mut Vec<CanonicalTypeId>)
    ensures
        final(out)@ == old(out)@ + field_edges(*f),
{
    match &f.storage {
        CStore::Val(v) => push_val_edges(v, out),
        _ => {
            assert(old(out)@ + Seq::<CanonicalTypeId>::empty() =~= old(out)@);
        },
    }
}

fn push_vals_edges(s: &Vec<CVal>, out: &mut Vec<CanonicalTypeId>)
    ensures
        final(out)@ == old(out)@ + vals_edges(s@),
{
    let ghost start = out@;
    for i in 0..s.len()
        invariant
            out@ == start + vals_edges(s@.subrange(0, i as int)),
    {
        proof {
            let t = s@.subrange(0, i + 1);
            assert(t.drop_last() =~= s@.subrange(0, i as int));
            assert(t.last() == s@[i as int]);
        }
        push_val_edges(&s[i], out);
        proof {
            assert(start + vals_edges(s@.subrange(0, i as int)) + val_edges(s@[i as int])
                =~= start + vals_edges(s@.subrange(0, i + 1)));
        }
    }
    assert(s@.subrange(0, s@.len() as int) =~= s@);
}

fn push_fields_edges(s: &Vec<CField>, out: &mut Vec<CanonicalTypeId>)
    ensures
        final(out)@ == old(out)@ + fields_edges(s@),
{
    let ghost start = out@;
    for i in 0..s.len()
        invariant
            out@ == start + fields_edges(s@.subrange(0, i as int)),
    {
        proof {
            let t = s@.subrange(0, i + 1);
            assert(t.drop_last() =~= s@.subrange(0, i as int));
            assert(t.last() == s@[i as int]);
        }
        push_field_edges(&s[i], out);
        proof {
            assert(start + fields_edges(s@.subrange(0, i as int)) + field_edges(s@[i as int])
                =~= start + fields_edges(s@.subrange(0, i + 1)));
        }
    }
    assert(s@.subrange(0, s@.len() as int) =~= s@);
}

/// The absolute canonical ids a group key references outside itself (one per occurrence).
pub fn edge_canon_ids(key: &Vec<CType>) -> (out: Vec<CanonicalTypeId>)
    ensures
        out@ == key_edges(key_view(key@)),
{
    let mut out: Vec<CanonicalTypeId> = Vec::new();
    for i in 0..key.len()
        invariant
            out@ == key_edges(key_view(key@.subrange(0, i as int))),
    {
        let ghost before = out@;
        let ct = &key[i];
        match ct.supertype {
            Some(CanonRef::Canon(id)) => out.push(id),
            _ => {},
        }
        let ghost after_sup = out@;
        match &ct.body {
            CBody::Func(p, r) => {
                push_vals_edges(p, &mut out);
                push_vals_edges(r, &mut out);
            },
            CBody::Struct(fs) => push_fields_edges(fs, &mut out),
            CBody::Array(f) => push_field_edges(f, &mut out),
        }
        proof {
            let kv = key_view(key@.subrange(0, i + 1));
            assert(kv.drop_last() =~= key_view(key@.subrange(0, i as int)));
            assert(kv.last() == ct@);
            assert(out@ =~= before + type_edges(ct@));
        }
    }
    assert(key@.subrange(0, key@.len() as int) =~= key@);
    out
}

impl TypeRegistry {
    /// Whether canonical type `sub` is a declared subtype of `sup` (walks `sub`'s supertype chain).
    pub fn is_subtype(&self, sub: CanonicalTypeId, sup: CanonicalTypeId) -> (b: bool)
        requires
            self.wf(),
            sub.0 < self.types@.len(),
        ensures
            b == spec_is_subtype(self.types@, sub, sup),
    {
        let mut cur = sub;
        let mut fuel = self.types.len();
        while cur != sup
            invariant
                self.wf(),
                cur.0 < self.types@.len(),
                fuel <= self.types@.len(),
                chain_reaches(self.types@, cur, sup, fuel as nat) == spec_is_subtype(self.types@, sub, sup),
            decreases fuel,
        {
            if fuel == 0 {
                return false;
            }
            let next = match &self.types[cur.index()] {
                Some(slot) => slot.ty.supertype,
                None => None,
            };
            match next {
                Some(n) => {
                    proof { assert(type_live(self.types@, cur.0 as int)); }
                    cur = n;
                    fuel = fuel - 1;
                },
                None => return false,
            }
        }
        true
    }

    /// The number of live (registered) rec groups.
    pub fn live_group_count(&self) -> (n: usize)
        ensures
            n == live_count(self.groups@, self.groups@.len() as int),
    {
        let mut n: usize = 0;
        for i in 0..self.groups.len()
            invariant
                n == live_count(self.groups@, i as int),
                n <= i,
        {
            if self.groups[i].is_some() {
                n = n + 1;
            }
        }
        n
    }

    /// A copy of a function type's canonical (params, results); empty for another kind.
    pub fn func_body_raw(&self, id: CanonicalTypeId) -> (r: (Vec<CVal>, Vec<CVal>))
        requires
            type_live(self.types@, id.0 as int),
        ensures
            match self.types@[id.0 as int]->0.ty.body@ {
                CBodyView::Func(p, res) => r.0@ == p && r.1@ == res,
                _ => r.0@.len() == 0 && r.1@.len() == 0,
            },
    {
        match &self.types[id.index()] {
            Some(slot) => match &slot.ty.body {
                CBody::Func(p, r) => (copy_cvals(p), copy_cvals(r)),
                _ => (Vec::new(), Vec::new()),
            },
            None => (Vec::new(), Vec::new()),
        }
    }

    /// A copy of a struct type's canonical fields; empty for another kind.
    pub fn struct_fields_raw(&self, id: CanonicalTypeId) -> (r: Vec<CField>)
        requires
            type_live(self.types@, id.0 as int),
        ensures
            match self.types@[id.0 as int]->0.ty.body@ {
                CBodyView::Struct(fs) => r@ == fs,
                _ => r@.len() == 0,
            },
    {
        match &self.types[id.index()] {
            Some(slot) => match &slot.ty.body {
                CBody::Struct(fs) => copy_cfields(fs),
                _ => Vec::new(),
            },
            None => Vec::new(),
        }
    }

    /// An array type's canonical element (an immutable `i8` for another kind).
    pub fn array_field_raw(&self, id: CanonicalTypeId) -> (r: CField)
        requires
            type_live(self.types@, id.0 as int),
        ensures
            match self.types@[id.0 as int]->0.ty.body@ {
                CBodyView::Array(f) => r == f,
                _ => r == (CField { mutable: false, storage: CStore::Packed(0) }),
            },
    {
        match &self.types[id.index()] {
            Some(slot) => match &slot.ty.body {
                CBody::Array(f) => *f,
                _ => CField { mutable: false, storage: CStore::Packed(0) },
            },
            None => CField { mutable: false, storage: CStore::Packed(0) },
        }
    }
}


/// `x + n`, saturating at `u32::MAX`.
pub open spec fn sat_add(x: u32, n: nat) -> u32 {
    if x + n >= u32::MAX { u32::MAX } else { (x + n) as u32 }
}

/// How many of `edges` name a live type owned by group `g`.
pub open spec fn owned_count(edges: Seq<CanonicalTypeId>, types: Seq<Option<TypeSlot>>, g: int) -> nat
    decreases edges.len(),
{
    if edges.len() == 0 {
        0
    } else {
        owned_count(edges.drop_last(), types, g) + (if type_live(types, edges.last().0 as int)
            && types[edges.last().0 as int]->0.group.0 == g { 1nat } else { 0nat })
    }
}

/// Two registry states differ only in group registration counts.
pub open spec fn same_but_counts(a: &TypeRegistry, b: &TypeRegistry) -> bool {
    &&& a.types@ == b.types@
    &&& a.free_types@ == b.free_types@
    &&& a.free_groups@ == b.free_groups@
    &&& a.groups@.len() == b.groups@.len()
    &&& forall|g: int| 0 <= g < a.groups@.len() ==> (#[trigger] a.groups@[g] is Some) == (b.groups@[g] is Some)
    &&& forall|g: int| #[trigger] group_live(a.groups@, g) ==> a.groups@[g]->0.key@ == b.groups@[g]->0.key@
        && a.groups@[g]->0.members@ == b.groups@[g]->0.members@
}

impl TypeRegistry {
    /// The live group whose key equals `key`, if any.
    pub fn find_group(&self, key: &Vec<CType>) -> (r: Option<GroupId>)
        requires
            self.wf(),
        ensures
            match r {
                Some(g) => group_live(self.groups@, g.0 as int) && key_view(self.groups@[g.0 as int]->0.key@) == key_view(key@),
                None => forall|g: int| #[trigger] group_live(self.groups@, g) ==> key_view(self.groups@[g]->0.key@) != key_view(key@),
            },
    {
        for i in 0..self.groups.len()
            invariant
                self.wf(),
                forall|g: int| 0 <= g < i && #[trigger] group_live(self.groups@, g) ==> key_view(self.groups@[g]->0.key@) != key_view(key@),
        {
            match &self.groups[i] {
                Some(rec) => {
                    if key_eq(&rec.key, key) {
                        return Some(GroupId(i as u32));
                    }
                },
                None => {},
            }
        }
        None
    }

    /// Adds a registration to live group `g` (saturating: a group at `u32::MAX` stays pinned).
    pub fn incref_group(&mut self, g: GroupId)
        requires
            old(self).wf(),
            group_live(old(self).groups@, g.0 as int),
        ensures
            final(self).wf(),
            same_but_counts(old(self), final(self)),
            final(self).groups@[g.0 as int]->0.refcount == sat_add(old(self).groups@[g.0 as int]->0.refcount, 1),
            forall|h: int| 0 <= h < old(self).groups@.len() && h != g.0 ==> #[trigger] final(self).groups@[h] == old(self).groups@[h],
            pins_hold(old(self)) ==> holds_registration(final(self), g.0 as int),
    {
        let i = g.index();
        let mut slot: Option<GroupRecord> = None;
        std::mem::swap(&mut slot, &mut self.groups[i]);
        let mut rec = match slot { Some(r) => r, None => GroupRecord { key: Vec::new(), members: Vec::new(), refcount: 1 } };
        rec.refcount = rec.refcount.saturating_add(1);
        self.groups.set(i, Some(rec));
        proof {
            let o = old(self);
            assert forall|h: int| #[trigger] group_live(self.groups@, h) implies group_live(o.groups@, h) by {}
            assert forall|h: int| #[trigger] group_live(o.groups@, h) implies group_live(self.groups@, h) by {}
            assert(self.groups@[i as int]->0.key@ == o.groups@[i as int]->0.key@);
            if pins_hold(o) {
                lemma_incref_pins(o, self, i as int);
            }
        }
    }
}


impl TypeRegistry {
    /// Adds one registration to the owner of every live type among `edges` (a new group pins the
    /// groups it references).
    fn pin_edges(&mut self, edges: &Vec<CanonicalTypeId>)
        requires
            old(self).wf(),
            forall|i: int| 0 <= i < edges@.len() ==> (#[trigger] edges@[i]).0 < old(self).types@.len(),
        ensures
            final(self).wf(),
            same_but_counts(old(self), final(self)),
            forall|g: int| #[trigger] group_live(final(self).groups@, g) ==> final(self).groups@[g]->0.refcount
                == sat_add(old(self).groups@[g]->0.refcount, owned_count(edges@, old(self).types@, g)),
    {
        let ghost start = *self;
        for i in 0..edges.len()
            invariant
                self.wf(),
                start.wf(),
                forall|i: int| 0 <= i < edges@.len() ==> (#[trigger] edges@[i]).0 < start.types@.len(),
                same_but_counts(&start, self),
                forall|g: int| #[trigger] group_live(self.groups@, g) ==> self.groups@[g]->0.refcount
                    == sat_add(start.groups@[g]->0.refcount, owned_count(edges@.subrange(0, i as int), start.types@, g)),
        {
            let e = edges[i];
            let owner = match &self.types[e.index()] {
                Some(slot) => Some(slot.group),
                None => None,
            };
            let ghost before = *self;
            match owner {
                Some(og) => {
                    proof { assert(type_live(self.types@, e.0 as int)); }
                    self.incref_group(og);
                },
                None => {},
            }
            proof {
                let sub = edges@.subrange(0, i + 1);
                assert(sub.drop_last() =~= edges@.subrange(0, i as int));
                assert(sub.last() == e);
                assert forall|g: int| #[trigger] group_live(self.groups@, g) implies self.groups@[g]->0.refcount
                    == sat_add(start.groups@[g]->0.refcount, owned_count(sub, start.types@, g)) by {
                    assert(group_live(before.groups@, g));
                }
            }
        }
        assert(edges@.subrange(0, edges@.len() as int) =~= edges@);
    }

    /// A dead group slot (recycled from the free list, or appended).
    fn alloc_group_slot(&mut self) -> (g: GroupId)
        requires
            old(self).wf(),
            old(self).groups@.len() < u32::MAX,
        ensures
            final(self).wf(),
            final(self).types@ == old(self).types@,
            final(self).free_types@ == old(self).free_types@,
            final(self).groups@.len() >= old(self).groups@.len(),
            final(self).groups@.len() <= old(self).groups@.len() + 1,
            (g.0 as int) < final(self).groups@.len(),
            final(self).groups@[g.0 as int] is None,
            forall|h: int| 0 <= h < old(self).groups@.len() ==> #[trigger] final(self).groups@[h] == old(self).groups@[h],
            forall|h: int| old(self).groups@.len() <= h < final(self).groups@.len() ==> #[trigger] final(self).groups@[h] is None,
            !final(self).free_groups@.contains(g),
            forall|x: GroupId| #[trigger] final(self).free_groups@.contains(x) ==> old(self).free_groups@.contains(x),
    {
        match self.free_groups.pop() {
            Some(g) => {
                proof {
                    let o = old(self).free_groups@;
                    assert(o[o.len() - 1] == g);
                    assert(self.free_groups@ =~= o.drop_last());
                    assert forall|x: GroupId| #[trigger] self.free_groups@.contains(x) implies o.contains(x) by {
                        let k = choose|k: int| 0 <= k < self.free_groups@.len() && self.free_groups@[k] == x;
                        assert(o[k] == x);
                    }
                    assert(!self.free_groups@.contains(g)) by {
                        if self.free_groups@.contains(g) {
                            let k = choose|k: int| 0 <= k < self.free_groups@.len() && self.free_groups@[k] == g;
                            assert(o[k] == o[o.len() - 1]);
                        }
                    }
                    assert forall|i: int| 0 <= i < self.free_groups@.len() implies {
                        let h = (#[trigger] self.free_groups@[i]).0 as int;
                        0 <= h < self.groups@.len() && self.groups@[h] is None
                    } by {
                        assert(self.free_groups@[i] == o[i]);
                    }
                }
                g
            },
            None => {
                let g = GroupId(self.groups.len() as u32);
                self.groups.push(None);
                proof {
                    let o = old(self);
                    assert forall|h: int| #[trigger] group_live(self.groups@, h) implies group_live(o.groups@, h) && self.groups@[h] == o.groups@[h] by {}
                    assert forall|h: int| #[trigger] group_live(o.groups@, h) implies group_live(self.groups@, h) by {}
                    assert(!self.free_groups@.contains(g)) by {
                        if self.free_groups@.contains(g) {
                            let k = choose|k: int| 0 <= k < self.free_groups@.len() && self.free_groups@[k] == g;
                            assert((self.free_groups@[k]).0 < o.groups@.len());
                        }
                    }
                }
                g
            },
        }
    }
}


impl TypeRegistry {
    /// `n` distinct dead type slots (recycled from the free list, or appended).
    fn alloc_type_slots(&mut self, n: usize) -> (members: Vec<CanonicalTypeId>)
        requires
            old(self).wf(),
            old(self).types@.len() + n <= u32::MAX,
        ensures
            final(self).wf(),
            final(self).groups@ == old(self).groups@,
            final(self).free_groups@ == old(self).free_groups@,
            final(self).types@.len() >= old(self).types@.len(),
            final(self).types@.len() <= old(self).types@.len() + n,
            forall|t: int| 0 <= t < old(self).types@.len() ==> #[trigger] final(self).types@[t] == old(self).types@[t],
            forall|t: int| old(self).types@.len() <= t < final(self).types@.len() ==> #[trigger] final(self).types@[t] is None,
            members@.len() == n,
            members@.no_duplicates(),
            forall|p: int| 0 <= p < n ==> {
                let m = #[trigger] members@[p];
                &&& (m.0 as int) < final(self).types@.len()
                &&& final(self).types@[m.0 as int] is None
                &&& !final(self).free_types@.contains(m)
            },
            forall|x: CanonicalTypeId| #[trigger] final(self).free_types@.contains(x) ==> old(self).free_types@.contains(x),
    {
        let mut members: Vec<CanonicalTypeId> = Vec::new();
        let ghost o = *self;
        for k in 0..n
            invariant
                self.wf(),
                o.wf(),
                o.types@.len() + n <= u32::MAX,
                self.groups@ == o.groups@,
                self.free_groups@ == o.free_groups@,
                self.types@.len() >= o.types@.len(),
                self.types@.len() <= o.types@.len() + k,
                forall|t: int| 0 <= t < o.types@.len() ==> #[trigger] self.types@[t] == o.types@[t],
                forall|t: int| o.types@.len() <= t < self.types@.len() ==> #[trigger] self.types@[t] is None,
                members@.len() == k,
                members@.no_duplicates(),
                forall|p: int| 0 <= p < k ==> {
                    let m = #[trigger] members@[p];
                    &&& (m.0 as int) < self.types@.len()
                    &&& self.types@[m.0 as int] is None
                    &&& !self.free_types@.contains(m)
                },
                forall|x: CanonicalTypeId| #[trigger] self.free_types@.contains(x) ==> o.free_types@.contains(x),
        {
            let ghost fl = self.free_types@;
            let ghost before = *self;
            let id = match self.free_types.pop() {
                Some(id) => {
                    proof {
                        assert(fl[fl.len() - 1] == id);
                        assert(self.free_types@ =~= fl.drop_last());
                        assert forall|x: CanonicalTypeId| #[trigger] self.free_types@.contains(x) implies fl.contains(x) by {
                            let j = choose|j: int| 0 <= j < self.free_types@.len() && self.free_types@[j] == x;
                            assert(fl[j] == x);
                        }
                        assert(!self.free_types@.contains(id)) by {
                            if self.free_types@.contains(id) {
                                let j = choose|j: int| 0 <= j < self.free_types@.len() && self.free_types@[j] == id;
                                assert(fl[j] == fl[fl.len() - 1]);
                            }
                        }
                        assert forall|i: int| 0 <= i < self.free_types@.len() implies {
                            let t = (#[trigger] self.free_types@[i]).0 as int;
                            0 <= t < self.types@.len() && self.types@[t] is None
                        } by {
                            assert(self.free_types@[i] == fl[i]);
                        }
                        // a free slot is never already a member (members are not in the free list)
                        assert(!members@.contains(id)) by {
                            if members@.contains(id) {
                                let p = choose|p: int| 0 <= p < members@.len() && members@[p] == id;
                                assert(!before.free_types@.contains(members@[p]));
                                assert(fl[fl.len() - 1] == id);
                            }
                        }
                        assert((id.0 as int) < self.types@.len() && self.types@[id.0 as int] is None) by {
                            assert(before.free_types@[fl.len() - 1] == id);
                        }
                    }
                    id
                },
                None => {
                    let id = CanonicalTypeId(self.types.len() as u32);
                    self.types.push(None);
                    proof {
                        assert forall|t: int| #[trigger] type_live(self.types@, t) implies type_live(before.types@, t) && self.types@[t] == before.types@[t] by {}
                        assert forall|g: int| #[trigger] group_live(self.groups@, g) implies ({
                            let rec = self.groups@[g]->0;
                            forall|p: int| 0 <= p < rec.members@.len() ==> {
                                let m = (#[trigger] rec.members@[p]).0 as int;
                                self.types@[m] == before.types@[m] && type_live(self.types@, m)
                            }
                        }) by {
                            let rec = self.groups@[g]->0;
                            assert forall|p: int| 0 <= p < rec.members@.len() implies {
                                let m = (#[trigger] rec.members@[p]).0 as int;
                                self.types@[m] == before.types@[m] && type_live(self.types@, m)
                            } by {
                                assert(type_live(before.types@, rec.members@[p].0 as int));
                            }
                        }
                        assert(!members@.contains(id)) by {
                            if members@.contains(id) {
                                let p = choose|p: int| 0 <= p < members@.len() && members@[p] == id;
                                assert((members@[p].0 as int) < before.types@.len());
                            }
                        }
                        assert(!self.free_types@.contains(id)) by {
                            if self.free_types@.contains(id) {
                                let j = choose|j: int| 0 <= j < self.free_types@.len() && self.free_types@[j] == id;
                                assert((self.free_types@[j].0 as int) < before.types@.len());
                            }
                        }
                    }
                    id
                },
            };
            members.push(id);
            proof {
                assert forall|p: int| 0 <= p < k + 1 implies {
                    let m = #[trigger] members@[p];
                    &&& (m.0 as int) < self.types@.len()
                    &&& self.types@[m.0 as int] is None
                    &&& !self.free_types@.contains(m)
                } by {
                    if p < k {
                        let m = members@[p];
                        assert(!before.free_types@.contains(m));
                        if self.free_types@.contains(m) {
                            assert(fl.contains(m));
                        }
                    }
                }
                assert(members@.no_duplicates()) by {
                    assert forall|a: int, b: int| 0 <= a < b < members@.len() implies members@[a] != members@[b] by {
                        if b == k {
                            assert(members@[b] == id);
                            if members@[a] == id {
                                assert(members@.subrange(0, k as int).contains(id));
                            }
                        }
                    }
                }
            }
        }
        members
    }
}


/// Whether every absolute reference of a key names a live type.
pub open spec fn edges_live(k: Seq<CTypeView>, types: Seq<Option<TypeSlot>>) -> bool {
    forall|i: int| 0 <= i < key_edges(k).len() ==> type_live(types, (#[trigger] key_edges(k)[i]).0 as int)
}

impl TypeRegistry {
    /// Interns a canonical group key: an existing live group with an equal key gains a
    /// registration and is returned; otherwise a new group is registered with one registration,
    /// its members get fresh type slots holding the key's types (relative references resolved to
    /// the members), and every group the key references gains one registration per reference.
    pub fn intern_group(&mut self, key: Vec<CType>) -> (g: GroupId)
        requires
            old(self).wf(),
            key_rel_ok(key_view(key@)),
            edges_live(key_view(key@), old(self).types@),
            old(self).types@.len() + key@.len() <= u32::MAX,
            old(self).groups@.len() < u32::MAX,
        ensures
            final(self).wf(),
            group_live(final(self).groups@, g.0 as int),
            key_view(final(self).groups@[g.0 as int]->0.key@) == key_view(key@),
            group_live(old(self).groups@, g.0 as int) ==> {
                &&& same_but_counts(old(self), final(self))
                &&& final(self).groups@[g.0 as int]->0.refcount == sat_add(old(self).groups@[g.0 as int]->0.refcount, 1)
                &&& forall|h: int| 0 <= h < old(self).groups@.len() && h != g.0 ==> #[trigger] final(self).groups@[h] == old(self).groups@[h]
            },
            !group_live(old(self).groups@, g.0 as int) ==> {
                &&& forall|h: int| #[trigger] group_live(old(self).groups@, h) ==> key_view(old(self).groups@[h]->0.key@) != key_view(key@)
                &&& final(self).groups@[g.0 as int]->0.refcount == 1
                &&& forall|p: int| 0 <= p < final(self).groups@[g.0 as int]->0.members@.len() ==>
                    !type_live(old(self).types@, (#[trigger] final(self).groups@[g.0 as int]->0.members@[p]).0 as int)
                &&& forall|h: int| #[trigger] group_live(old(self).groups@, h) ==> {
                    &&& group_live(final(self).groups@, h)
                    &&& final(self).groups@[h]->0.key@ == old(self).groups@[h]->0.key@
                    &&& final(self).groups@[h]->0.members@ == old(self).groups@[h]->0.members@
                    &&& final(self).groups@[h]->0.refcount == sat_add(old(self).groups@[h]->0.refcount,
                        owned_count(key_edges(key_view(key@)), old(self).types@, h))
                }
                &&& forall|h: int| #[trigger] group_live(final(self).groups@, h) ==> group_live(old(self).groups@, h) || h == g.0
            },
            forall|t: int| #[trigger] type_live(old(self).types@, t) ==> final(self).types@[t] == old(self).types@[t],
            forall|t: int| #[trigger] type_live(final(self).types@, t) ==> type_live(old(self).types@, t)
                || final(self).groups@[g.0 as int]->0.members@.contains(CanonicalTypeId(t as u32)),
            old(self).types@.len() <= final(self).types@.len() <= old(self).types@.len() + key@.len(),
            old(self).groups@.len() <= final(self).groups@.len() <= old(self).groups@.len() + 1,
            forall|h: int| #[trigger] group_live(final(self).groups@, h) ==> group_live(old(self).groups@, h) || h == g.0,
            forall|h: int| #[trigger] group_live(old(self).groups@, h) ==> {
                &&& group_live(final(self).groups@, h)
                &&& final(self).groups@[h]->0.key@ == old(self).groups@[h]->0.key@
                &&& final(self).groups@[h]->0.members@ == old(self).groups@[h]->0.members@
            },
            pins_hold(old(self)) ==> pins_hold(final(self)),
            forall|p: Multiset<int>| pins_hold_with(old(self), p) && pending_live(old(self), p)
                ==> #[trigger] pins_hold_with(final(self), p.insert(g.0 as int)),
    {
        match self.find_group(&key) {
            Some(g) => {
                self.incref_group(g);
                proof {
                    assert forall|p: Multiset<int>| pins_hold_with(old(self), p) && pending_live(old(self), p)
                        implies #[trigger] pins_hold_with(self, p.insert(g.0 as int)) by {
                        lemma_intern_pins(old(self), self, key@, g.0 as int, p);
                    }
                    if pins_hold(old(self)) {
                        assert forall|h: int| #[trigger] group_live(old(self).groups@, h) implies self.groups@[h]->0.refcount == u32::MAX
                            || self.groups@[h]->0.refcount >= old(self).groups@[h]->0.refcount by {
                            if h != g.0 { assert(self.groups@[h] == old(self).groups@[h]); }
                        }
                        assert forall|h: int| #[trigger] group_live(old(self).groups@, h) && old(self).groups@[h]->0.refcount == u32::MAX
                            implies self.groups@[h]->0.refcount == u32::MAX by {
                            if h != g.0 { assert(self.groups@[h] == old(self).groups@[h]); }
                        }
                        lemma_counts_grow(old(self), self, Multiset::empty());
                    }
                }
                return g;
            },
            None => {},
        }
        let ghost s0 = *self;
        let edges = edge_canon_ids(&key);
        self.pin_edges(&edges);
        let ghost sp = *self;
        let g = self.alloc_group_slot();
        let n = key.len();
        let members = self.alloc_type_slots(n);
        let ghost s1 = *self;
        proof {
            assert forall|t: int| #[trigger] type_live(s0.types@, t) implies type_live(s1.types@, t) && s1.types@[t] == s0.types@[t] by {}
        }
        for pos in 0..n
            invariant
                s1.wf(),
                n == key@.len(),
                n == members@.len(),
                members@.no_duplicates(),
                key_rel_ok(key_view(key@)),
                (g.0 as int) < s1.groups@.len(),
                s1.groups@[g.0 as int] is None,
                self.groups@ == s1.groups@,
                self.free_types@ == s1.free_types@,
                self.free_groups@ == s1.free_groups@,
                self.types@.len() == s1.types@.len(),
                forall|p: int| 0 <= p < n ==> {
                    let m = #[trigger] members@[p];
                    &&& (m.0 as int) < s1.types@.len()
                    &&& s1.types@[m.0 as int] is None
                    &&& !s1.free_types@.contains(m)
                },
                forall|t: int| 0 <= t < s1.types@.len() && !members@.contains(CanonicalTypeId(t as u32)) ==> #[trigger] self.types@[t] == s1.types@[t],
                forall|p: int| 0 <= p < pos ==> {
                    let m = (#[trigger] members@[p]).0 as int;
                    &&& self.types@[m] is Some
                    &&& self.types@[m]->0.group == g
                    &&& slot_view(self.types@[m]->0) == stored_type(key_view(key@)[p], members@)
                },
                forall|p: int| pos <= p < n ==> (#[trigger] self.types@[members@[p].0 as int]) is None,
        {
            let ct = &key[pos];
            proof { assert(key_view(key@)[pos as int] == ct@); }
            let supertype = match ct.supertype {
                Some(r) => Some(resolve(&r, members.as_slice())),
                None => None,
            };
            let ty = CanonType {
                kind: body_kind(&ct.body),
                finality: ct.finality,
                supertype,
                body: resolve_body(&ct.body, members.as_slice()),
            };
            let m = members[pos];
            let ghost before = self.types@;
            self.types.set(m.index(), Some(TypeSlot { ty, group: g }));
            proof {
                assert forall|t: int| 0 <= t < s1.types@.len() && !members@.contains(CanonicalTypeId(t as u32)) implies #[trigger] self.types@[t] == s1.types@[t] by {
                    if t == m.0 {
                        assert(members@[pos as int] == CanonicalTypeId(t as u32));
                    }
                }
                assert forall|p: int| 0 <= p < pos + 1 implies {
                    let mm = (#[trigger] members@[p]).0 as int;
                    &&& self.types@[mm] is Some
                    &&& self.types@[mm]->0.group == g
                    &&& slot_view(self.types@[mm]->0) == stored_type(key_view(key@)[p], members@)
                } by {
                    if p < pos {
                        assert(members@[p] != members@[pos as int]);
                    }
                }
                assert forall|p: int| pos + 1 <= p < n implies (#[trigger] self.types@[members@[p].0 as int]) is None by {
                    assert(members@[p] != members@[pos as int]);
                }
            }
        }
        let ghost kv = key_view(key@);
        self.groups.set(g.index(), Some(GroupRecord { key, members, refcount: 1 }));
        proof {
            let gi = g.0 as int;
            let rec = self.groups@[gi]->0;
            assert(key_view(rec.key@) == kv);
            // every relevant fact about the final state
            assert forall|t: int| #[trigger] type_live(s0.types@, t) implies self.types@[t] == s0.types@[t] by {
                assert(type_live(s1.types@, t));
                if rec.members@.contains(CanonicalTypeId(t as u32)) {
                    let p = choose|p: int| 0 <= p < n && rec.members@[p] == CanonicalTypeId(t as u32);
                    assert(s1.types@[rec.members@[p].0 as int] is None);
                }
            }
            assert forall|h: int| #[trigger] group_live(self.groups@, h) implies {
                let r = self.groups@[h]->0;
                &&& r.refcount >= 1
                &&& r.members@.len() == r.key@.len()
                &&& r.members@.no_duplicates()
                &&& key_rel_ok(key_view(r.key@))
                &&& edges_below(key_view(r.key@), self.types@.len())
                &&& forall|p: int| 0 <= p < r.members@.len() ==> {
                    let m = (#[trigger] r.members@[p]).0 as int;
                    &&& type_live(self.types@, m)
                    &&& self.types@[m]->0.group.0 == h
                    &&& slot_view(self.types@[m]->0) == stored_type(key_view(r.key@)[p], r.members@)
                }
            } by {
                let r = self.groups@[h]->0;
                if h == gi {
                    assert forall|i: int| 0 <= i < key_edges(kv).len() implies (#[trigger] key_edges(kv)[i]).0 < self.types@.len() by {
                        assert(type_live(s0.types@, key_edges(kv)[i].0 as int));
                    }
                } else {
                    assert(group_live(s1.groups@, h));
                    assert forall|p: int| 0 <= p < r.members@.len() implies {
                        let m = (#[trigger] r.members@[p]).0 as int;
                        &&& type_live(self.types@, m)
                        &&& self.types@[m]->0.group.0 == h
                        &&& slot_view(self.types@[m]->0) == stored_type(key_view(r.key@)[p], r.members@)
                    } by {
                        let m = r.members@[p].0 as int;
                        assert(type_live(s1.types@, m));
                        assert(!rec.members@.contains(CanonicalTypeId(m as u32))) by {
                            if rec.members@.contains(CanonicalTypeId(m as u32)) {
                                let q = choose|q: int| 0 <= q < n && rec.members@[q] == CanonicalTypeId(m as u32);
                                assert(s1.types@[rec.members@[q].0 as int] is None);
                            }
                        }
                    }
                }
            }
            assert forall|t: int| #[trigger] type_live(self.types@, t) implies {
                let o = self.types@[t]->0.group.0 as int;
                &&& group_live(self.groups@, o)
                &&& self.groups@[o]->0.members@.contains(CanonicalTypeId(t as u32))
                &&& match self.types@[t]->0.ty.supertype { Some(sp) => sp.0 < self.types@.len(), None => true }
            } by {
                if rec.members@.contains(CanonicalTypeId(t as u32)) {
                    let p = choose|p: int| 0 <= p < n && rec.members@[p] == CanonicalTypeId(t as u32);
                    assert(rec.members@[p].0 as int == t);
                    let k = kv[p];
                    match k.supertype {
                        Some(CanonRef::Rel(q)) => {
                            assert(ref_ok(CanonRef::Rel(q), kv.len()));
                            assert((rec.members@[q as int].0 as int) < s1.types@.len());
                        },
                        Some(CanonRef::Canon(id)) => {
                            lemma_supertype_edge(kv, p);
                            assert(type_live(s0.types@, id.0 as int));
                        },
                        None => {},
                    }
                } else {
                    assert(self.types@[t] == s1.types@[t]);
                    assert(type_live(s1.types@, t));
                    let o = s1.types@[t]->0.group.0 as int;
                    assert(group_live(s1.groups@, o));
                    assert(o != gi);
                }
            }
            assert forall|g1: int, g2: int| #[trigger] group_live(self.groups@, g1) && #[trigger] group_live(self.groups@, g2)
                && key_view(self.groups@[g1]->0.key@) == key_view(self.groups@[g2]->0.key@) implies g1 == g2 by {
                if g1 != gi && g2 != gi {
                    assert(group_live(s1.groups@, g1) && group_live(s1.groups@, g2));
                } else if g1 == gi && g2 != gi {
                    assert(group_live(s0.groups@, g2));
                } else if g2 == gi && g1 != gi {
                    assert(group_live(s0.groups@, g1));
                }
            }
            assert forall|i: int| 0 <= i < self.free_types@.len() implies {
                let t = (#[trigger] self.free_types@[i]).0 as int;
                0 <= t < self.types@.len() && self.types@[t] is None
            } by {
                let x = self.free_types@[i];
                assert(s1.free_types@.contains(x));
                assert(!rec.members@.contains(x));
            }
            assert forall|i: int| 0 <= i < self.free_groups@.len() implies {
                let h = (#[trigger] self.free_groups@[i]).0 as int;
                0 <= h < self.groups@.len() && self.groups@[h] is None
            } by {
                let x = self.free_groups@[i];
                assert(s1.free_groups@.contains(x));
            }
            assert forall|t: int| #[trigger] type_live(self.types@, t) implies type_live(s0.types@, t)
                || rec.members@.contains(CanonicalTypeId(t as u32)) by {
                if !rec.members@.contains(CanonicalTypeId(t as u32)) {
                    assert(self.types@[t] == s1.types@[t]);
                }
            }
            assert forall|h: int| #[trigger] group_live(s0.groups@, h) implies {
                &&& group_live(self.groups@, h)
                &&& self.groups@[h]->0.key@ == s0.groups@[h]->0.key@
                &&& self.groups@[h]->0.members@ == s0.groups@[h]->0.members@
                &&& self.groups@[h]->0.refcount == sat_add(s0.groups@[h]->0.refcount,
                    owned_count(key_edges(kv), s0.types@, h))
            } by {
                assert(group_live(sp.groups@, h));
                assert(s1.groups@[h] == sp.groups@[h]);
                assert(h != gi);
                assert(group_live(s1.groups@, h));
                assert(self.groups@[h] == s1.groups@[h]);
                assert(edges@ == key_edges(kv));
            }
            assert forall|h: int| #[trigger] group_live(self.groups@, h) implies group_live(s0.groups@, h) || h == gi by {
                if h != gi {
                    assert(group_live(s1.groups@, h));
                }
            }
            assert forall|p: int| 0 <= p < rec.members@.len() implies
                !type_live(s0.types@, (#[trigger] rec.members@[p]).0 as int) by {
                let m = rec.members@[p].0 as int;
                assert(s1.types@[m] is None);
            }
            assert forall|p: Multiset<int>| pins_hold_with(&s0, p) && pending_live(&s0, p)
                implies #[trigger] pins_hold_with(self, p.insert(gi as int)) by {
                lemma_intern_pins(&s0, self, key@, gi as int, p);
            }
            if pins_hold(&s0) {
                assert(pins_hold_with(self, Multiset::<int>::empty().insert(gi as int)));
                lemma_pins_mono(self, Multiset::<int>::empty().insert(gi as int), Multiset::empty());
            }
        }
        g
    }
}

/// A key entry's absolute supertype is one of the key's edges.
proof fn lemma_supertype_edge(k: Seq<CTypeView>, p: int)
    requires
        0 <= p < k.len(),
        k[p].supertype is Some,
        k[p].supertype->0 is Canon,
    ensures
        key_edges(k).contains(k[p].supertype->0->Canon_0),
    decreases k.len(),
{
    let id = k[p].supertype->0->Canon_0;
    if p == k.len() - 1 {
        assert(type_edges(k.last())[0] == id);
        assert(key_edges(k)[key_edges(k.drop_last()).len() as int] == id);
    } else {
        lemma_supertype_edge(k.drop_last(), p);
        let j = choose|j: int| 0 <= j < key_edges(k.drop_last()).len() && key_edges(k.drop_last())[j] == id;
        assert(key_edges(k)[j] == id);
    }
}


proof fn lemma_live_count_kill(groups: Seq<Option<GroupRecord>>, i: int, n: int)
    requires
        0 <= i < n <= groups.len(),
        groups[i] is Some,
    ensures
        live_count(groups.update(i, None), n) + 1 == live_count(groups, n),
    decreases n,
{
    if n - 1 != i {
        lemma_live_count_kill(groups, i, n - 1);
    } else {
        lemma_live_count_same(groups, groups.update(i, None), n - 1);
    }
}

proof fn lemma_live_count_same(a: Seq<Option<GroupRecord>>, b: Seq<Option<GroupRecord>>, n: int)
    requires
        0 <= n <= a.len(),
        n <= b.len(),
        forall|j: int| 0 <= j < n ==> (#[trigger] a[j] is Some) == (b[j] is Some),
    ensures
        live_count(a, n) == live_count(b, n),
    decreases n,
{
    if n > 0 {
        lemma_live_count_same(a, b, n - 1);
    }
}

impl TypeRegistry {
    /// Reclaims live group `g`: its slot and its members' slots go back to the free lists, and the
    /// owners of the types its key references are returned (each to be released once).
    fn reclaim(&mut self, g: GroupId) -> (owners: Vec<GroupId>)
        requires
            old(self).wf(),
            group_live(old(self).groups@, g.0 as int),
        ensures
            final(self).wf(),
            final(self).groups@.len() == old(self).groups@.len(),
            final(self).types@.len() == old(self).types@.len(),
            final(self).groups@[g.0 as int] is None,
            forall|h: int| 0 <= h < old(self).groups@.len() && h != g.0 ==> #[trigger] final(self).groups@[h] == old(self).groups@[h],
            forall|t: int| #[trigger] type_live(final(self).types@, t) <==> (type_live(old(self).types@, t)
                && old(self).types@[t]->0.group != g),
            forall|t: int| #[trigger] type_live(final(self).types@, t) ==> final(self).types@[t] == old(self).types@[t],
            forall|i: int| 0 <= i < owners@.len() ==> ((#[trigger] owners@[i]).0 as int) < final(self).groups@.len(),
            forall|x: int| #[trigger] ids_ms(owners@).count(x)
                == owned_count(key_edges(key_view(old(self).groups@[g.0 as int]->0.key@)), old(self).types@, x),
    {
        let gi = g.index();
        let mut slot: Option<GroupRecord> = None;
        std::mem::swap(&mut slot, &mut self.groups[gi]);
        let rec = match slot { Some(r) => r, None => GroupRecord { key: Vec::new(), members: Vec::new(), refcount: 1 } };
        let ghost s0 = *old(self);
        proof {
            assert(rec == s0.groups@[gi as int]->0);
        }
        let edges = edge_canon_ids(&rec.key);
        let mut owners: Vec<GroupId> = Vec::new();
        proof { lemma_ids_ms_empty(); }
        for i in 0..edges.len()
            invariant
                s0.wf(),
                self.types@ == s0.types@,
                self.groups@.len() == s0.groups@.len(),
                edges@ == key_edges(key_view(rec.key@)),
                rec == s0.groups@[gi as int]->0,
                group_live(s0.groups@, gi as int),
                forall|j: int| 0 <= j < owners@.len() ==> ((#[trigger] owners@[j]).0 as int) < s0.groups@.len(),
                forall|x: int| #[trigger] ids_ms(owners@).count(x) == owned_count(edges@.subrange(0, i as int), s0.types@, x),
        {
            let id = edges[i];
            proof {
                assert(key_edges(key_view(rec.key@))[i as int] == id);
            }
            let ghost before = owners@;
            match &self.types[id.index()] {
                Some(ts) => {
                    proof { assert(type_live(s0.types@, id.0 as int)); }
                    owners.push(ts.group);
                    proof { lemma_ids_ms_push(before, ts.group); }
                },
                None => {},
            }
            proof {
                let sub = edges@.subrange(0, i + 1);
                assert(sub.drop_last() =~= edges@.subrange(0, i as int));
                assert(sub.last() == id);
            }
        }
        proof { assert(edges@.subrange(0, edges@.len() as int) =~= edges@); }
        let ghost s1 = *self;
        let n = rec.members.len();
        for k in 0..n
            invariant
                s0.wf(),
                group_live(s0.groups@, gi as int),
                rec == s0.groups@[gi as int]->0,
                n == rec.members@.len(),
                self.groups@ == s1.groups@,
                s1.groups@ == s0.groups@.update(gi as int, None),
                self.free_groups@ == s0.free_groups@,
                self.types@.len() == s0.types@.len(),
                forall|t: int| 0 <= t < s0.types@.len() && !rec.members@.subrange(0, k as int).contains(CanonicalTypeId(t as u32))
                    ==> #[trigger] self.types@[t] == s0.types@[t],
                forall|p: int| 0 <= p < k ==> (#[trigger] self.types@[rec.members@[p].0 as int]) is None,
                self.free_types@ == s0.free_types@ + rec.members@.subrange(0, k as int),
        {
            let m = rec.members[k];
            proof {
                assert(type_live(s0.types@, m.0 as int));
            }
            self.types.set(m.index(), None);
            self.free_types.push(m);
            proof {
                assert(rec.members@.subrange(0, k + 1) =~= rec.members@.subrange(0, k as int).push(m));
                assert forall|t: int| 0 <= t < s0.types@.len() && !rec.members@.subrange(0, k + 1).contains(CanonicalTypeId(t as u32))
                    implies #[trigger] self.types@[t] == s0.types@[t] by {
                    assert(rec.members@.subrange(0, k + 1)[k as int] == m);
                    if t == m.0 {
                        assert(rec.members@.subrange(0, k + 1).contains(m));
                    }
                    assert(!rec.members@.subrange(0, k as int).contains(CanonicalTypeId(t as u32))) by {
                        if rec.members@.subrange(0, k as int).contains(CanonicalTypeId(t as u32)) {
                            let q = choose|q: int| 0 <= q < k && rec.members@.subrange(0, k as int)[q] == CanonicalTypeId(t as u32);
                            assert(rec.members@.subrange(0, k + 1)[q] == CanonicalTypeId(t as u32));
                        }
                    }
                }
            }
        }
        self.free_groups.push(g);
        proof {
            assert(rec.members@.subrange(0, n as int) =~= rec.members@);
            let o = s0;
            // type liveness: exactly the members of g died
            assert forall|t: int| #[trigger] type_live(self.types@, t) <==> (type_live(o.types@, t) && o.types@[t]->0.group != g) by {
                if 0 <= t < o.types@.len() {
                    if rec.members@.contains(CanonicalTypeId(t as u32)) {
                        let q = choose|q: int| 0 <= q < n && rec.members@[q] == CanonicalTypeId(t as u32);
                        assert(self.types@[rec.members@[q].0 as int] is None);
                        assert(type_live(o.types@, t) && o.types@[t]->0.group.0 == gi);
                    } else {
                        assert(self.types@[t] == o.types@[t]);
                        if type_live(o.types@, t) && o.types@[t]->0.group == g {
                            assert(o.groups@[gi as int]->0.members@.contains(CanonicalTypeId(t as u32)));
                        }
                    }
                }
            }
            assert forall|t: int| #[trigger] type_live(self.types@, t) implies self.types@[t] == o.types@[t] by {
                if rec.members@.contains(CanonicalTypeId(t as u32)) {
                    let q = choose|q: int| 0 <= q < n && rec.members@[q] == CanonicalTypeId(t as u32);
                    assert(self.types@[rec.members@[q].0 as int] is None);
                }
            }
            // wf: live groups
            assert forall|h: int| #[trigger] group_live(self.groups@, h) implies {
                let r = self.groups@[h]->0;
                &&& r.refcount >= 1
                &&& r.members@.len() == r.key@.len()
                &&& r.members@.no_duplicates()
                &&& key_rel_ok(key_view(r.key@))
                &&& edges_below(key_view(r.key@), self.types@.len())
                &&& forall|p: int| 0 <= p < r.members@.len() ==> {
                    let m = (#[trigger] r.members@[p]).0 as int;
                    &&& type_live(self.types@, m)
                    &&& self.types@[m]->0.group.0 == h
                    &&& slot_view(self.types@[m]->0) == stored_type(key_view(r.key@)[p], r.members@)
                }
            } by {
                let r = self.groups@[h]->0;
                assert(group_live(o.groups@, h) && h != gi);
                assert forall|p: int| 0 <= p < r.members@.len() implies {
                    let m = (#[trigger] r.members@[p]).0 as int;
                    &&& type_live(self.types@, m)
                    &&& self.types@[m]->0.group.0 == h
                    &&& slot_view(self.types@[m]->0) == stored_type(key_view(r.key@)[p], r.members@)
                } by {
                    let m = r.members@[p].0 as int;
                    assert(type_live(o.types@, m));
                    assert(o.types@[m]->0.group.0 == h);
                }
            }
            assert forall|t: int| #[trigger] type_live(self.types@, t) implies {
                let ow = self.types@[t]->0.group.0 as int;
                &&& group_live(self.groups@, ow)
                &&& self.groups@[ow]->0.members@.contains(CanonicalTypeId(t as u32))
                &&& match self.types@[t]->0.ty.supertype { Some(sp) => sp.0 < self.types@.len(), None => true }
            } by {
                assert(type_live(o.types@, t));
            }
            assert forall|g1: int, g2: int| #[trigger] group_live(self.groups@, g1) && #[trigger] group_live(self.groups@, g2)
                && key_view(self.groups@[g1]->0.key@) == key_view(self.groups@[g2]->0.key@) implies g1 == g2 by {
                assert(group_live(o.groups@, g1) && group_live(o.groups@, g2));
            }
            // free lists
            assert forall|i: int| 0 <= i < self.free_types@.len() implies {
                let t = (#[trigger] self.free_types@[i]).0 as int;
                0 <= t < self.types@.len() && self.types@[t] is None
            } by {
                if i >= o.free_types@.len() {
                    let q = i - o.free_types@.len();
                    assert(self.free_types@[i] == rec.members@[q]);
                } else {
                    assert(self.free_types@[i] == o.free_types@[i]);
                    let t = o.free_types@[i].0 as int;
                    assert(o.types@[t] is None);
                    if rec.members@.contains(CanonicalTypeId(t as u32)) {
                        let q = choose|q: int| 0 <= q < n && rec.members@[q] == CanonicalTypeId(t as u32);
                        assert(type_live(o.types@, rec.members@[q].0 as int));
                    }
                }
            }
            assert(self.free_types@.no_duplicates()) by {
                assert forall|a: int, b: int| 0 <= a < b < self.free_types@.len() implies self.free_types@[a] != self.free_types@[b] by {
                    let fl = o.free_types@.len();
                    if b >= fl && a < fl {
                        let x = self.free_types@[b];
                        assert(x == rec.members@[b - fl]);
                        assert(type_live(o.types@, x.0 as int));
                        assert(o.types@[o.free_types@[a].0 as int] is None);
                    } else if a >= fl {
                        assert(self.free_types@[a] == rec.members@[a - fl]);
                        assert(self.free_types@[b] == rec.members@[b - fl]);
                    } else {
                        assert(self.free_types@[a] == o.free_types@[a]);
                        assert(self.free_types@[b] == o.free_types@[b]);
                    }
                }
            }
            assert forall|i: int| 0 <= i < self.free_groups@.len() implies {
                let h = (#[trigger] self.free_groups@[i]).0 as int;
                0 <= h < self.groups@.len() && self.groups@[h] is None
            } by {
                if i < o.free_groups@.len() {
                    assert(self.free_groups@[i] == o.free_groups@[i]);
                }
            }
            assert(self.free_groups@.no_duplicates()) by {
                assert forall|a: int, b: int| 0 <= a < b < self.free_groups@.len() implies self.free_groups@[a] != self.free_groups@[b] by {
                    if b == o.free_groups@.len() {
                        assert(o.groups@[o.free_groups@[a].0 as int] is None);
                    } else {
                        assert(self.free_groups@[a] == o.free_groups@[a]);
                        assert(self.free_groups@[b] == o.free_groups@[b]);
                    }
                }
            }
        }
        owners
    }
}


/// `b` is a state reachable from `a` by releases: no group or type is created, surviving groups
/// keep their keys and members and never gain registrations, surviving types are unchanged.
pub open spec fn shrinks_from(a: &TypeRegistry, b: &TypeRegistry) -> bool {
    &&& b.groups@.len() == a.groups@.len()
    &&& b.types@.len() == a.types@.len()
    &&& forall|h: int| #[trigger] group_live(b.groups@, h) ==> {
        &&& group_live(a.groups@, h)
        &&& b.groups@[h]->0.key@ == a.groups@[h]->0.key@
        &&& b.groups@[h]->0.members@ == a.groups@[h]->0.members@
        &&& b.groups@[h]->0.refcount <= a.groups@[h]->0.refcount
    }
    &&& forall|t: int| #[trigger] type_live(b.types@, t) ==> type_live(a.types@, t) && b.types@[t] == a.types@[t]
}

/// What releasing one registration of group `g` did to registry `a`, giving `b`: a dead or
/// pinned group is left alone, a group with more registrations loses one, and a group with its
/// last registration is reclaimed (with whatever that releases in turn).
pub open spec fn released_once(a: &TypeRegistry, b: &TypeRegistry, g: int) -> bool {
    &&& shrinks_from(a, b)
    &&& !group_live(a.groups@, g) || a.groups@[g]->0.refcount == u32::MAX ==> {
        &&& b.groups@ == a.groups@
        &&& b.types@ == a.types@
    }
    &&& group_live(a.groups@, g) && 1 < a.groups@[g]->0.refcount < u32::MAX ==> {
        &&& same_but_counts(a, b)
        &&& b.groups@[g]->0.refcount == a.groups@[g]->0.refcount - 1
        &&& forall|h: int| 0 <= h < a.groups@.len() && h != g ==> #[trigger] b.groups@[h] == a.groups@[h]
    }
    &&& group_live(a.groups@, g) && a.groups@[g]->0.refcount == 1 ==> !group_live(b.groups@, g)
    &&& group_live(a.groups@, g) && a.groups@[g]->0.refcount == 1 ==> exists|dead: Seq<int>| #[trigger] cascade(*a, *b, g, dead)
}

/// The references the key of group slot `k` of `a` makes to types owned by group `h`.
pub open spec fn refs_into(a: TypeRegistry, k: int, h: int) -> nat {
    owned_count(key_edges(key_view(a.groups@[k]->0.key@)), a.types@, h)
}

/// The registrations group `h` loses when one registration of `g` is released and the groups of
/// `dead` are reclaimed: one for `g` itself, and one per reference from a reclaimed group's key.
pub open spec fn lost(a: TypeRegistry, g: int, dead: Seq<int>, h: int) -> int
    decreases dead.len(),
{
    if dead.len() == 0 {
        if h == g { 1 } else { 0 }
    } else {
        lost(a, g, dead.drop_last(), h) + refs_into(a, dead.last(), h)
    }
}

/// Releasing the last registration of `g` in `a`, giving `b`, reclaimed exactly the groups
/// `dead`, `g` first: each of them lost at least as many registrations as it had, and every
/// other live group stays, with exactly the registrations it lost taken off (a pinned group keeps
/// its count).
pub open spec fn cascade(a: TypeRegistry, b: TypeRegistry, g: int, dead: Seq<int>) -> bool {
    &&& dead.len() >= 1
    &&& dead[0] == g
    &&& dead.no_duplicates()
    &&& forall|i: int| 0 <= i < dead.len() ==> {
        &&& group_live(a.groups@, #[trigger] dead[i])
        &&& !group_live(b.groups@, dead[i])
        &&& a.groups@[dead[i]]->0.refcount < u32::MAX
        &&& a.groups@[dead[i]]->0.refcount <= lost(a, g, dead, dead[i])
    }
    &&& forall|h: int| #[trigger] group_live(a.groups@, h) && !dead.contains(h) ==> {
        &&& group_live(b.groups@, h)
        &&& b.groups@[h]->0.refcount == (if a.groups@[h]->0.refcount == u32::MAX { u32::MAX as int }
            else { a.groups@[h]->0.refcount - lost(a, g, dead, h) })
    }
}

/// A release reclaims exactly the groups whose registrations all went: a group (not pinned) that
/// lost at least as many registrations as it had is gone, and a group still live kept the
/// registrations it did not lose.
pub proof fn lemma_cascade_reclaims_exactly_at_zero(a: TypeRegistry, b: TypeRegistry, g: int, dead: Seq<int>, h: int)
    requires
        b.wf(),
        cascade(a, b, g, dead),
        group_live(a.groups@, h),
        a.groups@[h]->0.refcount < u32::MAX,
    ensures
        a.groups@[h]->0.refcount <= lost(a, g, dead, h) <==> !group_live(b.groups@, h),
        group_live(b.groups@, h) ==> b.groups@[h]->0.refcount == a.groups@[h]->0.refcount - lost(a, g, dead, h),
{
    if dead.contains(h) {
        let i = choose|i: int| 0 <= i < dead.len() && dead[i] == h;
        assert(!group_live(b.groups@, dead[i]));
    }
}

/// Reclaiming one more group adds its references to what every group lost.
proof fn lemma_lost_push(a: TypeRegistry, g: int, dead: Seq<int>, k: int, h: int)
    ensures
        lost(a, g, dead.push(k), h) == lost(a, g, dead, h) + refs_into(a, k, h),
        lost(a, g, dead, h) >= 0,
    decreases dead.len(),
{
    assert(dead.push(k).drop_last() =~= dead);
    if dead.len() > 0 {
        lemma_lost_push(a, g, dead.drop_last(), dead.last(), h);
    }
}

/// In a registry shrunk from `a`, the references into a group still live are counted the same.
proof fn lemma_owned_in_shrunk(a: &TypeRegistry, x: &TypeRegistry, e: Seq<CanonicalTypeId>, k: int)
    requires
        a.wf(),
        x.wf(),
        shrinks_from(a, x),
        group_live(x.groups@, k),
    ensures
        owned_count(e, x.types@, k) == owned_count(e, a.types@, k),
{
    assert forall|i: int| 0 <= i < e.len() implies
        (type_live(x.types@, (#[trigger] e[i]).0 as int) && x.types@[e[i].0 as int]->0.group.0 == k)
        == (type_live(a.types@, e[i].0 as int) && a.types@[e[i].0 as int]->0.group.0 == k) by {
        let t = e[i].0 as int;
        if type_live(a.types@, t) && a.types@[t]->0.group.0 == k {
            assert(a.groups@[k]->0.members@.contains(CanonicalTypeId(t as u32)));
            let p = choose|p: int| 0 <= p < a.groups@[k]->0.members@.len() && a.groups@[k]->0.members@[p] == CanonicalTypeId(t as u32);
            assert(x.groups@[k]->0.members@ == a.groups@[k]->0.members@);
            assert(x.groups@[k]->0.members@[p] == CanonicalTypeId(t as u32));
            assert(type_live(x.types@, t));
        }
    }
    lemma_owned_count_same(e, x.types@, a.types@, k);
}

/// `chain` takes registry `a` to `b` by releasing one registration of each group of `ids` in
/// turn: each state is the one before with one registration of the next group released.
pub open spec fn release_chain(chain: Seq<TypeRegistry>, a: TypeRegistry, b: TypeRegistry, ids: Seq<GroupId>) -> bool {
    &&& chain.len() == ids.len() + 1
    &&& chain[0] == a
    &&& chain[ids.len() as int] == b
    &&& forall|i: int| 0 <= i < ids.len() ==> released_once(&chain[i], &chain[i + 1], (#[trigger] ids[i]).0 as int)
}

impl TypeRegistry {
    /// Removes one registration from live group `g` whose count is above one (and not pinned).
    fn decrement(&mut self, g: GroupId)
        requires
            old(self).wf(),
            group_live(old(self).groups@, g.0 as int),
            1 < old(self).groups@[g.0 as int]->0.refcount < u32::MAX,
        ensures
            final(self).wf(),
            same_but_counts(old(self), final(self)),
            final(self).groups@[g.0 as int]->0.refcount == old(self).groups@[g.0 as int]->0.refcount - 1,
            forall|h: int| 0 <= h < old(self).groups@.len() && h != g.0 ==> #[trigger] final(self).groups@[h] == old(self).groups@[h],
    {
        let i = g.index();
        let mut slot: Option<GroupRecord> = None;
        std::mem::swap(&mut slot, &mut self.groups[i]);
        let mut rec = match slot { Some(r) => r, None => GroupRecord { key: Vec::new(), members: Vec::new(), refcount: 2 } };
        rec.refcount = rec.refcount - 1;
        self.groups.set(i, Some(rec));
        proof {
            let o = old(self);
            assert forall|h: int| #[trigger] group_live(self.groups@, h) implies group_live(o.groups@, h) by {}
            assert forall|h: int| #[trigger] group_live(o.groups@, h) implies group_live(self.groups@, h) by {}
        }
    }

    /// Removes one registration from group `g`. A pinned group (count `u32::MAX`) and a dead slot
    /// are left alone. At zero the group is reclaimed, releasing in turn one registration of every
    /// group its key references (which may cascade). When the released registration is one the
    /// caller holds, the accounting of registrations survives.
    pub fn decref_group(&mut self, g: GroupId)
        requires
            old(self).wf(),
            (g.0 as int) < old(self).groups@.len(),
        ensures
            final(self).wf(),
            released_once(old(self), final(self), g.0 as int),
            holds_registration(old(self), g.0 as int) ==> pins_hold(final(self)),
    {
        self.release_pending(g, Ghost(Multiset::empty()));
    }

    /// Removes one registration from group `g` (as [`TypeRegistry::decref_group`]) while the
    /// releases `p` are still to come.
    fn release_pending(&mut self, g: GroupId, Ghost(p): Ghost<Multiset<int>>)
        requires
            old(self).wf(),
            (g.0 as int) < old(self).groups@.len(),
        ensures
            final(self).wf(),
            released_once(old(self), final(self), g.0 as int),
            pins_hold_with(old(self), p.insert(g.0 as int)) ==> pins_hold_with(final(self), p),
    {
        let ghost acc = pins_hold_with(old(self), p.insert(g.0 as int));
        let gi = g.index();
        let rc = match &self.groups[gi] {
            None => {
                proof { if acc { broadcast use vstd::multiset::group_multiset_axioms; lemma_pins_mono(old(self), p.insert(g.0 as int), p); } }
                return;
            },
            Some(rec) => rec.refcount,
        };
        if rc == u32::MAX {
            proof { if acc { broadcast use vstd::multiset::group_multiset_axioms; lemma_pins_mono(old(self), p.insert(g.0 as int), p); } }
            return;
        }
        if rc > 1 {
            self.decrement(g);
            proof {
                assert forall|h: int| #[trigger] group_live(self.groups@, h) implies {
                    &&& group_live(old(self).groups@, h)
                    &&& self.groups@[h]->0.key@ == old(self).groups@[h]->0.key@
                    &&& self.groups@[h]->0.members@ == old(self).groups@[h]->0.members@
                    &&& self.groups@[h]->0.refcount <= old(self).groups@[h]->0.refcount
                } by {
                    assert(0 <= h < old(self).groups@.len());
                    assert((old(self).groups@[h] is Some) == (self.groups@[h] is Some));
                    assert(group_live(old(self).groups@, h));
                    if h != gi {
                        assert(self.groups@[h] == old(self).groups@[h]);
                    }
                }
                assert(shrinks_from(old(self), self));
            }
            proof {
                if acc { lemma_decrement_pins(old(self), self, gi as int, p); }
            }
            return;
        }
        let ghost start = *old(self);
        proof {
            assert(group_live(start.groups@, gi as int));
            assert(rc == start.groups@[gi as int]->0.refcount);
            assert(rc >= 1);
        }
        let mut stack = self.reclaim(g);
        proof {
            assert forall|h: int| #[trigger] group_live(self.groups@, h) implies {
                &&& group_live(start.groups@, h)
                &&& self.groups@[h]->0.key@ == start.groups@[h]->0.key@
                &&& self.groups@[h]->0.members@ == start.groups@[h]->0.members@
                &&& self.groups@[h]->0.refcount <= start.groups@[h]->0.refcount
            } by {
                assert(h != gi);
            }
            if acc {
                lemma_reclaim_pins(&start, self, gi as int, p, ids_ms(stack@));
            }
        }
        let ghost mut dead: Seq<int> = seq![gi as int];
        proof {
            assert(dead.drop_last() =~= Seq::<int>::empty());
            assert(Seq::<int>::empty().push(gi as int) =~= dead);
            lemma_lost_push(start, gi as int, Seq::<int>::empty(), gi as int, gi as int);
            assert(start.groups@[gi as int]->0.refcount <= lost(start, gi as int, dead, dead[0]));
            assert forall|h: int| #[trigger] group_live(start.groups@, h) && !dead.contains(h) implies {
                &&& group_live(self.groups@, h)
                &&& (start.groups@[h]->0.refcount == u32::MAX ==> self.groups@[h]->0.refcount == u32::MAX)
                &&& (start.groups@[h]->0.refcount < u32::MAX ==> self.groups@[h]->0.refcount + lost(start, gi as int, dead, h)
                    == start.groups@[h]->0.refcount + ids_ms(stack@).count(h))
            } by {
                if h == gi as int {
                    assert(dead[0] == h);
                }
                lemma_lost_push(start, gi as int, Seq::<int>::empty(), gi as int, h);
                assert(self.groups@[h] == start.groups@[h]);
            }
        }
        while stack.len() > 0
            invariant
                self.wf(),
                start.wf(),
                shrinks_from(&start, self),
                !group_live(self.groups@, gi as int),
                forall|i: int| 0 <= i < stack@.len() ==> ((#[trigger] stack@[i]).0 as int) < self.groups@.len(),
                acc ==> pins_hold_with(self, p.add(ids_ms(stack@))),
                dead.len() >= 1,
                dead[0] == gi as int,
                dead.no_duplicates(),
                forall|i: int| 0 <= i < dead.len() ==> {
                    &&& group_live(start.groups@, #[trigger] dead[i])
                    &&& !group_live(self.groups@, dead[i])
                    &&& start.groups@[dead[i]]->0.refcount < u32::MAX
                    &&& start.groups@[dead[i]]->0.refcount <= lost(start, gi as int, dead, dead[i])
                },
                forall|h: int| #[trigger] group_live(start.groups@, h) && !dead.contains(h) ==> {
                    &&& group_live(self.groups@, h)
                    &&& (start.groups@[h]->0.refcount == u32::MAX ==> self.groups@[h]->0.refcount == u32::MAX)
                    &&& (start.groups@[h]->0.refcount < u32::MAX ==> self.groups@[h]->0.refcount + lost(start, gi as int, dead, h)
                        == start.groups@[h]->0.refcount + ids_ms(stack@).count(h))
                },
            ensures
                stack@.len() == 0,
            decreases live_count(self.groups@, self.groups@.len() as int), stack@.len(),
        {
            let ghost before = *self;
            let ghost full = stack@;
            let h = match stack.pop() { Some(h) => h, None => break };
            let hi = h.index();
            let ghost q = p.add(ids_ms(stack@));
            proof {
                assert(full == stack@.push(h));
                lemma_ids_ms_push(stack@, h);
                if acc {
                    broadcast use vstd::multiset::group_multiset_axioms;
                    lemma_pins_mono(&before, p.add(ids_ms(full)), q.insert(hi as int));
                }
            }
            proof {
                broadcast use vstd::multiset::group_multiset_axioms;
                assert forall|k: int| #[trigger] ids_ms(stack@).count(k) == ids_ms(full).count(k) - (if k == hi as int { 1int } else { 0int }) by {}
            }
            let rch = match &self.groups[hi] {
                None => {
                    proof { if acc { broadcast use vstd::multiset::group_multiset_axioms; lemma_pins_mono(&before, q.insert(hi as int), q); } }
                    continue;
                },
                Some(rec) => rec.refcount,
            };
            if rch == u32::MAX {
                proof {
                    if acc { broadcast use vstd::multiset::group_multiset_axioms; lemma_pins_mono(&before, q.insert(hi as int), q); }
                    if group_live(start.groups@, hi as int) && start.groups@[hi as int]->0.refcount < u32::MAX {
                        assert(before.groups@[hi as int]->0.refcount <= start.groups@[hi as int]->0.refcount);
                    }
                }
                continue;
            }
            if rch > 1 {
                self.decrement(h);
                proof {
                    assert(group_live(before.groups@, hi as int));
                    assert(group_live(start.groups@, hi as int));
                    if dead.contains(hi as int) {
                        let i = choose|i: int| 0 <= i < dead.len() && dead[i] == hi as int;
                        assert(!group_live(before.groups@, dead[i]));
                    }
                    if start.groups@[hi as int]->0.refcount == u32::MAX {
                        assert(before.groups@[hi as int]->0.refcount == u32::MAX);
                    }
                    lemma_live_count_same(before.groups@, self.groups@, self.groups@.len() as int);
                    assert forall|k: int| #[trigger] group_live(self.groups@, k) implies {
                        &&& group_live(start.groups@, k)
                        &&& self.groups@[k]->0.key@ == start.groups@[k]->0.key@
                        &&& self.groups@[k]->0.members@ == start.groups@[k]->0.members@
                        &&& self.groups@[k]->0.refcount <= start.groups@[k]->0.refcount
                    } by {
                        assert(group_live(before.groups@, k));
                    }
                    if acc { lemma_decrement_pins(&before, self, hi as int, q); }
                }
                continue;
            }
            proof {
                assert(group_live(before.groups@, hi as int));
                assert(rch == before.groups@[hi as int]->0.refcount);
                assert(rch >= 1);
            }
            let owners = self.reclaim(h);
            let ghost dead0 = dead;
            proof {
                assert(group_live(before.groups@, hi as int));
                assert(group_live(start.groups@, hi as int));
                if dead.contains(hi as int) {
                    let i = choose|i: int| 0 <= i < dead.len() && dead[i] == hi as int;
                    assert(!group_live(before.groups@, dead[i]));
                }
                if start.groups@[hi as int]->0.refcount == u32::MAX {
                    assert(before.groups@[hi as int]->0.refcount == u32::MAX);
                }
                assert(before.groups@[hi as int]->0.key@ == start.groups@[hi as int]->0.key@);
                // what the reclaimed group references, counted in `start`
                assert forall|k: int| group_live(self.groups@, k) implies
                    #[trigger] ids_ms(owners@).count(k) == refs_into(start, hi as int, k) by {
                    assert(group_live(before.groups@, k));
                    lemma_owned_in_shrunk(&start, &before, key_edges(key_view(start.groups@[hi as int]->0.key@)), k);
                }
                dead = dead.push(hi as int);
                assert forall|i: int| 0 <= i < dead.len() implies {
                    &&& group_live(start.groups@, #[trigger] dead[i])
                    &&& !group_live(self.groups@, dead[i])
                    &&& start.groups@[dead[i]]->0.refcount < u32::MAX
                    &&& start.groups@[dead[i]]->0.refcount <= lost(start, gi as int, dead, dead[i])
                } by {
                    lemma_lost_push(start, gi as int, dead0, hi as int, dead[i]);
                    if i < dead0.len() {
                        assert(dead[i] == dead0[i]);
                    }
                }
                assert(self.groups@ =~= before.groups@.update(hi as int, None));
                lemma_live_count_kill(before.groups@, hi as int, before.groups@.len() as int);
                assert forall|k: int| #[trigger] group_live(self.groups@, k) implies {
                    &&& group_live(start.groups@, k)
                    &&& self.groups@[k]->0.key@ == start.groups@[k]->0.key@
                    &&& self.groups@[k]->0.members@ == start.groups@[k]->0.members@
                    &&& self.groups@[k]->0.refcount <= start.groups@[k]->0.refcount
                } by {
                    assert(k != hi);
                    assert(group_live(before.groups@, k));
                }
                if acc {
                    lemma_reclaim_pins(&before, self, hi as int, q, ids_ms(owners@));
                }
            }
            let ghost mid = stack@;
            proof {
                lemma_ids_ms_empty();
                assert(owners@.subrange(0, 0) =~= Seq::<GroupId>::empty());
            }
            for j in 0..owners.len()
                invariant
                    forall|i: int| 0 <= i < owners@.len() ==> ((#[trigger] owners@[i]).0 as int) < self.groups@.len(),
                    forall|i: int| 0 <= i < stack@.len() ==> ((#[trigger] stack@[i]).0 as int) < self.groups@.len(),
                    forall|x: int| #[trigger] ids_ms(stack@).count(x) == ids_ms(mid).count(x) + ids_ms(owners@.subrange(0, j as int)).count(x),
            {
                let ghost sb = stack@;
                stack.push(owners[j]);
                proof {
                    broadcast use vstd::multiset::group_multiset_axioms;
                    lemma_ids_ms_push(sb, owners[j as int]);
                    assert(owners@.subrange(0, j + 1) =~= owners@.subrange(0, j as int).push(owners[j as int]));
                    lemma_ids_ms_push(owners@.subrange(0, j as int), owners[j as int]);
                }
            }
            proof {
                assert(owners@.subrange(0, owners@.len() as int) =~= owners@);
                if acc {
                    broadcast use vstd::multiset::group_multiset_axioms;
                    lemma_pins_mono(self, q.add(ids_ms(owners@)), p.add(ids_ms(stack@)));
                }
                assert forall|k: int| #[trigger] group_live(start.groups@, k) && !dead.contains(k) implies {
                    &&& group_live(self.groups@, k)
                    &&& (start.groups@[k]->0.refcount == u32::MAX ==> self.groups@[k]->0.refcount == u32::MAX)
                    &&& (start.groups@[k]->0.refcount < u32::MAX ==> self.groups@[k]->0.refcount + lost(start, gi as int, dead, k)
                        == start.groups@[k]->0.refcount + ids_ms(stack@).count(k))
                } by {
                    assert(dead0.contains(k) ==> dead.contains(k)) by {
                        if dead0.contains(k) {
                            let i = choose|i: int| 0 <= i < dead0.len() && dead0[i] == k;
                            assert(dead[i] == k);
                        }
                    }
                    assert(k != hi as int) by { assert(dead[dead.len() - 1] == hi as int); }
                    assert(group_live(before.groups@, k));
                    lemma_lost_push(start, gi as int, dead0, hi as int, k);
                    assert(self.groups@[k] == before.groups@[k]);
                }
            }
        }
        proof {
            if acc {
                broadcast use vstd::multiset::group_multiset_axioms;
                lemma_pins_mono(self, p.add(ids_ms(stack@)), p);
            }
            lemma_ids_ms_empty();
            assert(stack@ =~= Seq::<GroupId>::empty());
            assert(cascade(start, *self, gi as int, dead));
        }
    }

    /// Releases group ids, one registration each (reclaiming at zero, with the cascade).
    pub fn release(&mut self, group_ids: &[GroupId])
        requires
            old(self).wf(),
            forall|i: int| 0 <= i < group_ids@.len() ==> ((#[trigger] group_ids@[i]).0 as int) < old(self).groups@.len(),
        ensures
            final(self).wf(),
            shrinks_from(old(self), final(self)),
            exists|chain: Seq<TypeRegistry>| #[trigger] release_chain(chain, *old(self), *final(self), group_ids@),
            pins_hold_with(old(self), ids_ms(group_ids@)) ==> pins_hold(final(self)),
    {
        let ghost start = *old(self);
        let ghost mut chain: Seq<TypeRegistry> = seq![start];
        let ghost acc = pins_hold_with(old(self), ids_ms(group_ids@));
        let n = group_ids.len();
        proof { assert(group_ids@.subrange(0, n as int) =~= group_ids@); }
        for i in 0..n
            invariant
                n == group_ids@.len(),
                self.wf(),
                shrinks_from(&start, self),
                forall|i: int| 0 <= i < group_ids@.len() ==> ((#[trigger] group_ids@[i]).0 as int) < self.groups@.len(),
                acc ==> pins_hold_with(self, ids_ms(group_ids@.subrange(i as int, n as int))),
                chain.len() == i + 1,
                chain[0] == start,
                chain[i as int] == *self,
                forall|j: int| 0 <= j < i ==> released_once(&chain[j], &chain[j + 1], (#[trigger] group_ids@[j]).0 as int),
        {
            let ghost before = *self;
            let ghost rest = group_ids@.subrange(i + 1, n as int);
            proof {
                broadcast use vstd::multiset::group_multiset_axioms;
                broadcast use vstd::seq_lib::group_to_multiset_ensures;
                let here = group_ids@.subrange(i as int, n as int);
                let hm = here.map_values(|y: GroupId| y.0 as int);
                assert(hm.remove(0) =~= rest.map_values(|y: GroupId| y.0 as int));
                assert(hm[0] == group_ids@[i as int].0 as int);
                assert(hm.contains(hm[0]));
                assert forall|x: int| #[trigger] ids_ms(rest).insert(group_ids@[i as int].0 as int).count(x) <= ids_ms(here).count(x) by {
                    assert(hm.to_multiset().remove(hm[0]) =~= ids_ms(rest));
                }
                if acc {
                    lemma_pins_mono(self, ids_ms(here), ids_ms(rest).insert(group_ids@[i as int].0 as int));
                }
            }
            self.release_pending(group_ids[i], Ghost(ids_ms(rest)));
            proof {
                let c0 = chain;
                chain = chain.push(*self);
                assert forall|j: int| 0 <= j < i + 1 implies released_once(&chain[j], &chain[j + 1], (#[trigger] group_ids@[j]).0 as int) by {
                    if j < i {
                        assert(chain[j] == c0[j] && chain[j + 1] == c0[j + 1]);
                    }
                }
                assert forall|k: int| #[trigger] group_live(self.groups@, k) implies {
                    &&& group_live(start.groups@, k)
                    &&& self.groups@[k]->0.key@ == start.groups@[k]->0.key@
                    &&& self.groups@[k]->0.members@ == start.groups@[k]->0.members@
                    &&& self.groups@[k]->0.refcount <= start.groups@[k]->0.refcount
                } by {
                    assert(group_live(before.groups@, k));
                }
            }
        }
        proof {
            if acc {
                broadcast use vstd::multiset::group_multiset_axioms;
                broadcast use vstd::seq_lib::group_to_multiset_ensures;
                let e = group_ids@.subrange(n as int, n as int);
                assert(e.map_values(|y: GroupId| y.0 as int) =~= Seq::<int>::empty());
                assert(ids_ms(e).len() == 0);
                lemma_pins_mono(self, ids_ms(e), Multiset::empty());
            }
            assert(release_chain(chain, start, *self, group_ids@));
        }
    }

    /// Adds a registration to the group owning live type `id` (a handle was cloned).
    pub fn incref_type(&mut self, id: CanonicalTypeId)
        requires
            old(self).wf(),
            type_live(old(self).types@, id.0 as int),
        ensures
            final(self).wf(),
            same_but_counts(old(self), final(self)),
            ({
                let g = old(self).types@[id.0 as int]->0.group.0 as int;
                &&& final(self).groups@[g]->0.refcount == sat_add(old(self).groups@[g]->0.refcount, 1)
                &&& forall|h: int| 0 <= h < old(self).groups@.len() && h != g ==> #[trigger] final(self).groups@[h] == old(self).groups@[h]
            }),
            pins_hold(old(self)) ==> holds_registration(final(self), old(self).types@[id.0 as int]->0.group.0 as int),
    {
        let g = match &self.types[id.index()] {
            Some(slot) => slot.group,
            None => return,
        };
        self.incref_group(g);
    }

    /// Removes a registration from the group owning live type `id` (a handle was dropped).
    pub fn decref_type(&mut self, id: CanonicalTypeId)
        requires
            old(self).wf(),
            type_live(old(self).types@, id.0 as int),
        ensures
            final(self).wf(),
            released_once(old(self), final(self), old(self).types@[id.0 as int]->0.group.0 as int),
            holds_registration(old(self), old(self).types@[id.0 as int]->0.group.0 as int) ==> pins_hold(final(self)),
    {
        let g = match &self.types[id.index()] {
            Some(slot) => slot.group,
            None => return,
        };
        self.decref_group(g);
    }
}

} // verus!
