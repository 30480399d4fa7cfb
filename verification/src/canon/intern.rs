//! Interning whole modules and host-built types into the registry: a module's rec groups are
//! found as maximal runs of equal group ids, each run becomes a canonical key (sibling indices
//! relative, earlier indices replaced by their canonical ids), and each key is hash-consed.
use vstd::prelude::*;
use vstd::multiset::Multiset;
use crate::canon::{CanonicalTypeId, CompositeBody, GroupId, IrHeap, IrStorage, IrVal, IrField, ModuleType};
use crate::canon::keys::{CBody, CBodyView, spec_pub_val, spec_pub_field, func_body, struct_body, array_body, CField, CHeap, CStore, CType, CTypeView, CVal, CanonRef, RefMap, RefMapView,
    ref_ok, body_ok, cval_ok, cfield_ok, spec_cref, cref_ok, cref, body_key, spec_body_key, spec_val_key, spec_field_key,
    val_refs_ok, field_refs_ok, body_refs_ok};
use crate::value::{FieldType, ValType};
use crate::canon::pins::{pending_live, holds_registration, pins_hold, pins_hold_with, ids_ms, lemma_ids_ms_count, lemma_ids_ms_empty, lemma_ids_ms_push, lemma_pins_mono};
use crate::canon::registry::{same_but_counts, sat_add, owned_count, TypeRegistry, TypeSlot, key_view, group_live, type_live, key_edges, edges_live,
    key_rel_ok, vals_edges, fields_edges, val_edges, field_edges, body_edges, type_edges};

verus! {

// --- the rec groups of a module ---

/// Where the run of equal group ids that contains index `s` ends, scanning from `s`.
pub open spec fn run_end(t: Seq<ModuleType>, s: int) -> int
    decreases t.len() - s,
{
    if s + 1 >= t.len() || t[s + 1].group != t[s].group { s + 1 } else { run_end(t, s + 1) }
}

pub proof fn lemma_run_end(t: Seq<ModuleType>, s: int)
    requires
        0 <= s < t.len(),
    ensures
        s < run_end(t, s) <= t.len(),
        forall|k: int| s <= k < run_end(t, s) ==> #[trigger] t[k].group == t[s].group,
        run_end(t, s) < t.len() ==> t[run_end(t, s)].group != t[s].group,
    decreases t.len() - s,
{
    if !(s + 1 >= t.len() || t[s + 1].group != t[s].group) {
        lemma_run_end(t, s + 1);
    }
}

/// The rec groups of a module from index `s` on, as `(start, end)` index ranges: the maximal runs
/// of consecutive types with equal group ids.
pub open spec fn runs_from(t: Seq<ModuleType>, s: int) -> Seq<(int, int)>
    decreases t.len() - s,
{
    if s < 0 || s >= t.len() {
        Seq::empty()
    } else {
        proof { lemma_run_end(t, s); }
        seq![(s, run_end(t, s))] + runs_from(t, run_end(t, s))
    }
}

/// The runs partition `[s, t.len())` in order, each a maximal run of one group id.
pub proof fn lemma_runs_from(t: Seq<ModuleType>, s: int)
    requires
        0 <= s <= t.len(),
    ensures
        ({
            let rs = runs_from(t, s);
            &&& rs.len() <= t.len() - s
            &&& (rs.len() == 0 <==> s == t.len())
            &&& rs.len() > 0 ==> rs[0].0 == s && rs[rs.len() - 1].1 == t.len()
            &&& forall|r: int| 0 <= r < rs.len() ==> {
                &&& s <= (#[trigger] rs[r]).0 < rs[r].1 <= t.len()
                &&& rs[r].1 == run_end(t, rs[r].0)
            }
            &&& forall|r: int| 0 <= r && r + 1 < rs.len() ==> (#[trigger] rs[r]).1 == rs[r + 1].0
        }),
    decreases t.len() - s,
{
    if s < t.len() {
        lemma_run_end(t, s);
        let e = run_end(t, s);
        lemma_runs_from(t, e);
        let rest = runs_from(t, e);
        let rs = runs_from(t, s);
        assert(rs == seq![(s, e)] + rest);
        assert forall|r: int| 0 <= r < rs.len() implies {
            &&& s <= (#[trigger] rs[r]).0 < rs[r].1 <= t.len()
            &&& rs[r].1 == run_end(t, rs[r].0)
        } by {
            if r > 0 {
                assert(rs[r] == rest[r - 1]);
            }
        }
        assert forall|r: int| 0 <= r && r + 1 < rs.len() implies (#[trigger] rs[r]).1 == rs[r + 1].0 by {
            if r > 0 {
                assert(rs[r] == rest[r - 1]);
                assert(rs[r + 1] == rest[r]);
            } else {
                assert(rs[1] == rest[0]);
            }
        }
        if rest.len() > 0 {
            assert(rs[rs.len() - 1] == rest[rest.len() - 1]);
        }
    }
}

// --- which references a module may make ---

/// Whether member `i` of a module may refer to type index `m`: `m` is an earlier type, or lies
/// in `i`'s own rec group (a later sibling).
pub open spec fn module_ref_ok(t: Seq<ModuleType>, i: int, m: u32) -> bool {
    &&& (m as int) < t.len()
    &&& ((m as int) < i || forall|k: int| i <= k <= m ==> #[trigger] t[k].group == t[i].group)
}

pub open spec fn module_heap_ok(t: Seq<ModuleType>, i: int, h: IrHeap) -> bool {
    match h {
        IrHeap::Concrete(m, _) => module_ref_ok(t, i, m),
        _ => true,
    }
}

pub open spec fn module_val_ok(t: Seq<ModuleType>, i: int, v: IrVal) -> bool {
    match v {
        IrVal::Ref { heap, .. } => module_heap_ok(t, i, heap),
        _ => true,
    }
}

pub open spec fn module_field_ok(t: Seq<ModuleType>, i: int, f: IrField) -> bool {
    match f.storage {
        IrStorage::Val(v) => module_val_ok(t, i, v),
        _ => true,
    }
}

pub open spec fn module_body_ok(t: Seq<ModuleType>, i: int, b: CompositeBody) -> bool {
    match b {
        CompositeBody::Func { params, results } =>
            (forall|j: int| 0 <= j < params@.len() ==> module_val_ok(t, i, #[trigger] params@[j]))
            && (forall|j: int| 0 <= j < results@.len() ==> module_val_ok(t, i, #[trigger] results@[j])),
        CompositeBody::Struct(fs) => forall|j: int| 0 <= j < fs@.len() ==> module_field_ok(t, i, #[trigger] fs@[j]),
        CompositeBody::Array(f) => module_field_ok(t, i, f),
    }
}

/// A module's types are well formed for interning: every type index it names (supertypes and
/// concrete references) is an earlier type or a member of the same rec group.
pub open spec fn module_types_ok(t: Seq<ModuleType>) -> bool {
    forall|i: int| 0 <= i < t.len() ==> {
        &&& match (#[trigger] t[i]).supertype { Some(m) => module_ref_ok(t, i, m), None => true }
        &&& module_body_ok(t, i, t[i].body)
    }
}

// --- the canonical key of a run ---

/// The reference map of run `[s, e)`: siblings relative, anything else through `ids`.
pub open spec fn run_map(s: int, e: int, ids: Seq<CanonicalTypeId>) -> RefMapView {
    RefMapView { lo: s as u32, hi: e as u32, table: ids, table_base: 0 }
}

pub open spec fn spec_type_key(t: ModuleType, map: RefMapView) -> CTypeView {
    CTypeView {
        finality: t.finality,
        supertype: match t.supertype { Some(m) => Some(spec_cref(map, m)), None => None },
        body: spec_body_key(t.body, map),
    }
}

/// The canonical key of the module run `[s, e)` given the canonical ids `ids` of earlier types.
pub open spec fn run_key(t: Seq<ModuleType>, s: int, e: int, ids: Seq<CanonicalTypeId>) -> Seq<CTypeView> {
    Seq::new((e - s) as nat, |p: int| spec_type_key(t[s + p], run_map(s, e, ids)))
}

/// `[s, e)` is a maximal run of one group id.
pub open spec fn is_run(t: Seq<ModuleType>, s: int, e: int) -> bool {
    &&& 0 <= s < e <= t.len()
    &&& forall|k: int| s <= k < e ==> #[trigger] t[k].group == t[s].group
    &&& e < t.len() ==> t[e].group != t[s].group
}

// --- liveness of a key's absolute references ---

pub open spec fn cval_live(v: CVal, types: Seq<Option<TypeSlot>>) -> bool {
    match v {
        CVal::Ref(_, CHeap::Concrete(_, CanonRef::Canon(id))) => type_live(types, id.0 as int),
        _ => true,
    }
}

pub open spec fn cfield_live(f: CField, types: Seq<Option<TypeSlot>>) -> bool {
    match f.storage {
        CStore::Val(v) => cval_live(v, types),
        _ => true,
    }
}

pub open spec fn body_live(b: CBodyView, types: Seq<Option<TypeSlot>>) -> bool {
    match b {
        CBodyView::Func(p, r) => (forall|i: int| 0 <= i < p.len() ==> cval_live(#[trigger] p[i], types))
            && (forall|i: int| 0 <= i < r.len() ==> cval_live(#[trigger] r[i], types)),
        CBodyView::Struct(fs) => forall|i: int| 0 <= i < fs.len() ==> cfield_live(#[trigger] fs[i], types),
        CBodyView::Array(f) => cfield_live(f, types),
    }
}

/// Each field of a live struct body is live.
pub proof fn lemma_struct_body_live(m: Seq<CField>, t: Seq<Option<TypeSlot>>, k: int)
    requires
        body_live(CBodyView::Struct(m), t),
        0 <= k < m.len(),
    ensures
        cfield_live(m[k], t),
{
    let b = CBodyView::Struct(m);
    match b {
        CBodyView::Struct(fs) => {
            assert(fs == m);
            assert(cfield_live(fs[k], t));
        },
        _ => {},
    }
}

/// Every absolute reference of a key (supertypes and bodies) names a live type.
pub open spec fn key_live(k: Seq<CTypeView>, types: Seq<Option<TypeSlot>>) -> bool {
    forall|i: int| 0 <= i < k.len() ==> {
        &&& match (#[trigger] k[i]).supertype { Some(CanonRef::Canon(id)) => type_live(types, id.0 as int), _ => true }
        &&& body_live(k[i].body, types)
    }
}

proof fn lemma_vals_edges_live(s: Seq<CVal>, types: Seq<Option<TypeSlot>>)
    requires
        forall|i: int| 0 <= i < s.len() ==> cval_live(#[trigger] s[i], types),
    ensures
        forall|j: int| 0 <= j < vals_edges(s).len() ==> type_live(types, (#[trigger] vals_edges(s)[j]).0 as int),
    decreases s.len(),
{
    if s.len() > 0 {
        let d = s.drop_last();
        assert forall|i: int| 0 <= i < d.len() implies cval_live(#[trigger] d[i], types) by {
            assert(d[i] == s[i]);
        }
        lemma_vals_edges_live(d, types);
        assert(cval_live(s[s.len() - 1], types));
        let a = vals_edges(d);
        assert forall|j: int| 0 <= j < vals_edges(s).len() implies type_live(types, (#[trigger] vals_edges(s)[j]).0 as int) by {
            if j < a.len() {
                assert(vals_edges(s)[j] == a[j]);
            } else {
                assert(vals_edges(s)[j] == val_edges(s.last())[j - a.len()]);
            }
        }
    }
}

proof fn lemma_fields_edges_live(s: Seq<CField>, types: Seq<Option<TypeSlot>>)
    requires
        forall|i: int| 0 <= i < s.len() ==> cfield_live(#[trigger] s[i], types),
    ensures
        forall|j: int| 0 <= j < fields_edges(s).len() ==> type_live(types, (#[trigger] fields_edges(s)[j]).0 as int),
    decreases s.len(),
{
    if s.len() > 0 {
        let d = s.drop_last();
        assert forall|i: int| 0 <= i < d.len() implies cfield_live(#[trigger] d[i], types) by {
            assert(d[i] == s[i]);
        }
        lemma_fields_edges_live(d, types);
        assert(cfield_live(s[s.len() - 1], types));
        let a = fields_edges(d);
        assert forall|j: int| 0 <= j < fields_edges(s).len() implies type_live(types, (#[trigger] fields_edges(s)[j]).0 as int) by {
            if j < a.len() {
                assert(fields_edges(s)[j] == a[j]);
            } else {
                assert(fields_edges(s)[j] == field_edges(s.last())[j - a.len()]);
            }
        }
    }
}

proof fn lemma_type_edges_live(k: CTypeView, types: Seq<Option<TypeSlot>>)
    requires
        match k.supertype { Some(CanonRef::Canon(id)) => type_live(types, id.0 as int), _ => true },
        body_live(k.body, types),
    ensures
        forall|j: int| 0 <= j < type_edges(k).len() ==> type_live(types, (#[trigger] type_edges(k)[j]).0 as int),
{
    let sup: Seq<CanonicalTypeId> = match k.supertype { Some(CanonRef::Canon(id)) => seq![id], _ => Seq::empty() };
    assert(type_edges(k) == sup + body_edges(k.body));
    match k.body {
        CBodyView::Func(p, r) => {
            lemma_vals_edges_live(p, types);
            lemma_vals_edges_live(r, types);
            assert forall|j: int| 0 <= j < body_edges(k.body).len() implies type_live(types, (#[trigger] body_edges(k.body)[j]).0 as int) by {
                let a = vals_edges(p);
                if j < a.len() {
                    assert(body_edges(k.body)[j] == a[j]);
                } else {
                    assert(body_edges(k.body)[j] == vals_edges(r)[j - a.len()]);
                }
            }
        },
        CBodyView::Struct(fs) => {
            lemma_fields_edges_live(fs, types);
        },
        CBodyView::Array(f) => {},
    }
    assert forall|j: int| 0 <= j < type_edges(k).len() implies type_live(types, (#[trigger] type_edges(k)[j]).0 as int) by {
        if j < sup.len() {
            assert(type_edges(k)[j] == sup[j]);
        } else {
            assert(type_edges(k)[j] == body_edges(k.body)[j - sup.len()]);
        }
    }
}

/// A key whose absolute references are all live has only live edges.
pub proof fn lemma_key_live_edges(k: Seq<CTypeView>, types: Seq<Option<TypeSlot>>)
    requires
        key_live(k, types),
    ensures
        edges_live(k, types),
    decreases k.len(),
{
    if k.len() > 0 {
        let d = k.drop_last();
        assert forall|i: int| 0 <= i < d.len() implies {
            &&& match (#[trigger] d[i]).supertype { Some(CanonRef::Canon(id)) => type_live(types, id.0 as int), _ => true }
            &&& body_live(d[i].body, types)
        } by {
            assert(d[i] == k[i]);
        }
        lemma_key_live_edges(d, types);
        let last = k[k.len() - 1];
        lemma_type_edges_live(last, types);
        let a = key_edges(d);
        assert forall|j: int| 0 <= j < key_edges(k).len() implies type_live(types, (#[trigger] key_edges(k)[j]).0 as int) by {
            if j < a.len() {
                assert(key_edges(k)[j] == a[j]);
            } else {
                assert(key_edges(k)[j] == type_edges(k.last())[j - a.len()]);
            }
        }
    }
}

/// The ids of the first `s` types name live types.
pub open spec fn ids_live(ids: Seq<CanonicalTypeId>, s: int, types: Seq<Option<TypeSlot>>) -> bool {
    forall|x: int| 0 <= x < s ==> type_live(types, (#[trigger] ids[x]).0 as int)
}

// --- the key of one run member ---

/// A reference made by a member of run `[s, e)` is a sibling or an earlier type.
proof fn lemma_ref_in_run(t: Seq<ModuleType>, s: int, e: int, j: int, m: u32)
    requires
        is_run(t, s, e),
        s <= j < e,
        module_ref_ok(t, j, m),
    ensures
        (s <= m < e) || (m as int) < s,
{
    if (m as int) >= j && (m as int) >= e {
        assert(t[e].group == t[j].group);
    }
}

/// Facts on the key of a value referenced by a member of run `[s, e)`.
proof fn lemma_val_in_run(t: Seq<ModuleType>, s: int, e: int, j: int, ids1: Seq<CanonicalTypeId>,
    ids2: Seq<CanonicalTypeId>, types: Seq<Option<TypeSlot>>, v: IrVal)
    requires
        is_run(t, s, e),
        e <= u32::MAX,
        s <= j < e,
        module_val_ok(t, j, v),
        ids1.len() == t.len(),
        ids2.len() == t.len(),
        forall|x: int| 0 <= x < s ==> (#[trigger] ids1[x]) == ids2[x],
    ensures
        val_refs_ok(v, run_map(s, e, ids1)),
        cval_ok(spec_val_key(v, run_map(s, e, ids1)), (e - s) as nat),
        ids_live(ids1, s, types) ==> cval_live(spec_val_key(v, run_map(s, e, ids1)), types),
        spec_val_key(v, run_map(s, e, ids1)) == spec_val_key(v, run_map(s, e, ids2)),
{
    match v {
        IrVal::Ref { heap: IrHeap::Concrete(m, _), .. } => {
            lemma_ref_in_run(t, s, e, j, m);
            if (m as int) < s {
                assert(ids1[m as int] == ids2[m as int]);
            }
        },
        _ => {},
    }
}

proof fn lemma_field_in_run(t: Seq<ModuleType>, s: int, e: int, j: int, ids1: Seq<CanonicalTypeId>,
    ids2: Seq<CanonicalTypeId>, types: Seq<Option<TypeSlot>>, f: IrField)
    requires
        is_run(t, s, e),
        e <= u32::MAX,
        s <= j < e,
        module_field_ok(t, j, f),
        ids1.len() == t.len(),
        ids2.len() == t.len(),
        forall|x: int| 0 <= x < s ==> (#[trigger] ids1[x]) == ids2[x],
    ensures
        field_refs_ok(f, run_map(s, e, ids1)),
        cfield_ok(spec_field_key(f, run_map(s, e, ids1)), (e - s) as nat),
        ids_live(ids1, s, types) ==> cfield_live(spec_field_key(f, run_map(s, e, ids1)), types),
        spec_field_key(f, run_map(s, e, ids1)) == spec_field_key(f, run_map(s, e, ids2)),
{
    match f.storage {
        IrStorage::Val(v) => lemma_val_in_run(t, s, e, j, ids1, ids2, types, v),
        _ => {},
    }
}

/// Facts on the key of member `j` of run `[s, e)`: its references are mappable, its relative
/// references stay inside the run, its absolute ones are live, and only `ids` below `s` matter.
proof fn lemma_member_in_run(t: Seq<ModuleType>, s: int, e: int, j: int, ids1: Seq<CanonicalTypeId>,
    ids2: Seq<CanonicalTypeId>, types: Seq<Option<TypeSlot>>)
    requires
        module_types_ok(t),
        is_run(t, s, e),
        e <= u32::MAX,
        s <= j < e,
        ids1.len() == t.len(),
        ids2.len() == t.len(),
        forall|x: int| 0 <= x < s ==> (#[trigger] ids1[x]) == ids2[x],
    ensures
        body_refs_ok(t[j].body, run_map(s, e, ids1)),
        match t[j].supertype { Some(m) => cref_ok(run_map(s, e, ids1), m), None => true },
        ({
            let k = spec_type_key(t[j], run_map(s, e, ids1));
            &&& match k.supertype { Some(r) => ref_ok(r, (e - s) as nat), None => true }
            &&& body_ok(k.body, (e - s) as nat)
            &&& ids_live(ids1, s, types) ==> match k.supertype { Some(CanonRef::Canon(id)) => type_live(types, id.0 as int), _ => true }
            &&& ids_live(ids1, s, types) ==> body_live(k.body, types)
            &&& k == spec_type_key(t[j], run_map(s, e, ids2))
        }),
{
    let map1 = run_map(s, e, ids1);
    let map2 = run_map(s, e, ids2);
    let tj = t[j];
    assert(module_body_ok(t, j, tj.body));
    match tj.supertype {
        Some(m) => {
            assert(module_ref_ok(t, j, m));
            lemma_ref_in_run(t, s, e, j, m);
            if (m as int) < s {
                assert(ids1[m as int] == ids2[m as int]);
            }
        },
        None => {},
    }
    match tj.body {
        CompositeBody::Func { params, results } => {
            assert forall|i: int| 0 <= i < params@.len() implies {
                &&& val_refs_ok(#[trigger] params@[i], map1)
                &&& cval_ok(spec_val_key(params@[i], map1), (e - s) as nat)
                &&& ids_live(ids1, s, types) ==> cval_live(spec_val_key(params@[i], map1), types)
                &&& spec_val_key(params@[i], map1) == spec_val_key(params@[i], map2)
            } by {
                lemma_val_in_run(t, s, e, j, ids1, ids2, types, params@[i]);
            }
            assert forall|i: int| 0 <= i < results@.len() implies {
                &&& val_refs_ok(#[trigger] results@[i], map1)
                &&& cval_ok(spec_val_key(results@[i], map1), (e - s) as nat)
                &&& ids_live(ids1, s, types) ==> cval_live(spec_val_key(results@[i], map1), types)
                &&& spec_val_key(results@[i], map1) == spec_val_key(results@[i], map2)
            } by {
                lemma_val_in_run(t, s, e, j, ids1, ids2, types, results@[i]);
            }
            assert(params@.map_values(|v: IrVal| spec_val_key(v, map1)) =~= params@.map_values(|v: IrVal| spec_val_key(v, map2)));
            assert(results@.map_values(|v: IrVal| spec_val_key(v, map1)) =~= results@.map_values(|v: IrVal| spec_val_key(v, map2)));
        },
        CompositeBody::Struct(fs) => {
            assert forall|i: int| 0 <= i < fs@.len() implies {
                &&& field_refs_ok(#[trigger] fs@[i], map1)
                &&& cfield_ok(spec_field_key(fs@[i], map1), (e - s) as nat)
                &&& ids_live(ids1, s, types) ==> cfield_live(spec_field_key(fs@[i], map1), types)
                &&& spec_field_key(fs@[i], map1) == spec_field_key(fs@[i], map2)
            } by {
                lemma_field_in_run(t, s, e, j, ids1, ids2, types, fs@[i]);
            }
            assert(fs@.map_values(|f: IrField| spec_field_key(f, map1)) =~= fs@.map_values(|f: IrField| spec_field_key(f, map2)));
        },
        CompositeBody::Array(f) => {
            lemma_field_in_run(t, s, e, j, ids1, ids2, types, f);
        },
    }
}

/// The key of a run is relatively well formed, its absolute references are live, and it depends
/// on the canonical ids of earlier types only.
pub proof fn lemma_run_key(t: Seq<ModuleType>, s: int, e: int, ids1: Seq<CanonicalTypeId>,
    ids2: Seq<CanonicalTypeId>, types: Seq<Option<TypeSlot>>)
    requires
        module_types_ok(t),
        is_run(t, s, e),
        e <= u32::MAX,
        ids1.len() == t.len(),
        ids2.len() == t.len(),
        forall|x: int| 0 <= x < s ==> (#[trigger] ids1[x]) == ids2[x],
    ensures
        key_rel_ok(run_key(t, s, e, ids1)),
        ids_live(ids1, s, types) ==> key_live(run_key(t, s, e, ids1), types),
        run_key(t, s, e, ids1) == run_key(t, s, e, ids2),
{
    let k1 = run_key(t, s, e, ids1);
    let k2 = run_key(t, s, e, ids2);
    assert forall|p: int| 0 <= p < k1.len() implies {
        &&& (match (#[trigger] k1[p]).supertype { Some(r) => ref_ok(r, k1.len()), None => true })
        &&& body_ok(k1[p].body, k1.len())
        &&& ids_live(ids1, s, types) ==> (match k1[p].supertype { Some(CanonRef::Canon(id)) => type_live(types, id.0 as int), _ => true })
        &&& ids_live(ids1, s, types) ==> body_live(k1[p].body, types)
        &&& k1[p] == k2[p]
    } by {
        lemma_member_in_run(t, s, e, s + p, ids1, ids2, types);
    }
    assert(k1 =~= k2);
}

// --- interning a module ---

/// What interning module `t` into registry `before` leaves: `after`, the canonical id of every
/// module type (`ids`) and the interned group of every rec group of the module (`registered`).
/// Each rec group's key is the run's key over `ids`, and its members are the run's ids; groups
/// and types that were live before stay as they were.
pub open spec fn module_interned(before: TypeRegistry, t: Seq<ModuleType>, after: TypeRegistry,
    ids: Seq<CanonicalTypeId>, registered: Seq<GroupId>) -> bool {
    let rs = runs_from(t, 0);
    &&& ids.len() == t.len()
    &&& registered.len() == rs.len()
    &&& forall|r: int| 0 <= r < rs.len() ==> {
        let g = (#[trigger] registered[r]).0 as int;
        &&& group_live(after.groups@, g)
        &&& key_view(after.groups@[g]->0.key@) == run_key(t, rs[r].0, rs[r].1, ids)
        &&& after.groups@[g]->0.members@ == ids.subrange(rs[r].0, rs[r].1)
    }
    &&& forall|x: int| 0 <= x < ids.len() ==> type_live(after.types@, (#[trigger] ids[x]).0 as int)
    &&& forall|h: int| #[trigger] group_live(before.groups@, h) ==> {
        &&& group_live(after.groups@, h)
        &&& after.groups@[h]->0.key@ == before.groups@[h]->0.key@
        &&& after.groups@[h]->0.members@ == before.groups@[h]->0.members@
    }
    &&& forall|x: int| #[trigger] type_live(before.types@, x) ==> after.types@[x] == before.types@[x]
    &&& forall|h: int| #[trigger] group_live(after.groups@, h) ==> group_live(before.groups@, h)
        || registered.contains(GroupId(h as u32))
}

/// What interning canonical key `key` into `a` did, giving `b` and group `g`: an equal live group
/// gained one registration (saturating) and nothing else changed; otherwise `g` is a new group
/// with one registration, and every group live before gained one registration per reference of
/// the key into it.
pub open spec fn interned_once(a: TypeRegistry, b: TypeRegistry, key: Seq<CTypeView>, g: int) -> bool {
    &&& group_live(b.groups@, g)
    &&& key_view(b.groups@[g]->0.key@) == key
    &&& group_live(a.groups@, g) ==> {
        &&& same_but_counts(&a, &b)
        &&& b.groups@[g]->0.refcount == sat_add(a.groups@[g]->0.refcount, 1)
        &&& forall|h: int| 0 <= h < a.groups@.len() && h != g ==> #[trigger] b.groups@[h] == a.groups@[h]
    }
    &&& !group_live(a.groups@, g) ==> {
        &&& forall|h: int| #[trigger] group_live(a.groups@, h) ==> key_view(a.groups@[h]->0.key@) != key
        &&& b.groups@[g]->0.refcount == 1
        &&& forall|h: int| #[trigger] group_live(a.groups@, h) ==> {
            &&& group_live(b.groups@, h)
            &&& b.groups@[h]->0.key@ == a.groups@[h]->0.key@
            &&& b.groups@[h]->0.refcount == sat_add(a.groups@[h]->0.refcount, owned_count(key_edges(key), a.types@, h))
        }
        &&& forall|h: int| #[trigger] group_live(b.groups@, h) ==> group_live(a.groups@, h) || h == g
    }
}

/// `chain` takes registry `a` to `b` by interning one key per registered group of `reg` in turn.
pub open spec fn intern_chain(chain: Seq<TypeRegistry>, a: TypeRegistry, b: TypeRegistry, reg: Seq<GroupId>) -> bool {
    &&& chain.len() == reg.len() + 1
    &&& chain[0] == a
    &&& chain[reg.len() as int] == b
    &&& forall|i: int| 0 <= i < reg.len() ==> interned_once(chain[i], chain[i + 1],
        key_view(chain[i + 1].groups@[(#[trigger] reg[i]).0 as int]->0.key@), reg[i].0 as int)
}

/// Interning a module whose one rec group is already registered adds exactly one registration
/// to that group and changes no other count: structurally identical groups are shared.
pub proof fn lemma_reinterned_group_counts_once(chain: Seq<TypeRegistry>, a: TypeRegistry, b: TypeRegistry, g: GroupId)
    requires
        intern_chain(chain, a, b, seq![g]),
        group_live(a.groups@, g.0 as int),
    ensures
        b.groups@[g.0 as int]->0.refcount == sat_add(a.groups@[g.0 as int]->0.refcount, 1),
        same_but_counts(&a, &b),
        forall|h: int| 0 <= h < a.groups@.len() && h != g.0 ==> #[trigger] b.groups@[h] == a.groups@[h],
{
    assert(seq![g][0] == g);
}

impl TypeRegistry {
    /// The canonical key of the module run `[base, end)`: each member's finality, supertype and
    /// body, with indices inside the run made relative and the others looked up in `module_to_canon`.
    fn build_key(&self, types: &[ModuleType], base: usize, end: usize, module_to_canon: &[CanonicalTypeId]) -> (key: Vec<CType>)
        requires
            module_types_ok(types@),
            is_run(types@, base as int, end as int),
            types@.len() <= u32::MAX,
            module_to_canon@.len() == types@.len(),
        ensures
            key_view(key@) == run_key(types@, base as int, end as int, module_to_canon@),
    {
        let map = RefMap { lo: base as u32, hi: end as u32, table: module_to_canon, table_base: 0 };
        let ghost mv = run_map(base as int, end as int, module_to_canon@);
        assert(map@ == mv);
        let mut key: Vec<CType> = Vec::new();
        let mut j = base;
        while j < end
            invariant
                base <= j <= end,
                module_types_ok(types@),
                is_run(types@, base as int, end as int),
                types@.len() <= u32::MAX,
                module_to_canon@.len() == types@.len(),
                map@ == mv,
                mv == run_map(base as int, end as int, module_to_canon@),
                key@.len() == j - base,
                forall|p: int| 0 <= p < key@.len() ==> (#[trigger] key@[p])@ == spec_type_key(types@[base + p], mv),
            decreases end - j,
        {
            proof {
                lemma_member_in_run(types@, base as int, end as int, j as int, module_to_canon@, module_to_canon@, Seq::empty());
            }
            let t = &types[j];
            let supertype = match t.supertype {
                Some(m) => Some(cref(&map, m)),
                None => None,
            };
            let body = body_key(&t.body, &map);
            key.push(CType { finality: t.finality, supertype, body });
            j = j + 1;
        }
        proof {
            assert(key_view(key@) =~= run_key(types@, base as int, end as int, module_to_canon@));
        }
        key
    }
}

proof fn lemma_twice_upto(r0: TypeRegistry, t: Seq<ModuleType>, r1: TypeRegistry, ids1: Seq<CanonicalTypeId>,
    gs1: Seq<GroupId>, r2: TypeRegistry, ids2: Seq<CanonicalTypeId>, gs2: Seq<GroupId>, r: int)
    requires
        module_types_ok(t),
        t.len() <= u32::MAX,
        r2.wf(),
        module_interned(r0, t, r1, ids1, gs1),
        module_interned(r1, t, r2, ids2, gs2),
        0 <= r < runs_from(t, 0).len(),
    ensures
        forall|x: int| 0 <= x < runs_from(t, 0)[r].1 ==> #[trigger] ids1[x] == ids2[x],
        forall|q: int| 0 <= q <= r ==> #[trigger] gs1[q] == gs2[q],
    decreases r,
{
    let rs = runs_from(t, 0);
    lemma_runs_from(t, 0);
    if r > 0 {
        lemma_twice_upto(r0, t, r1, ids1, gs1, r2, ids2, gs2, r - 1);
        assert(rs[r - 1].1 == rs[r].0);
    }
    let s = rs[r].0;
    let e = rs[r].1;
    lemma_run_end(t, s);
    assert(is_run(t, s, e));
    assert forall|x: int| 0 <= x < s implies (#[trigger] ids1[x]) == ids2[x] by {}
    lemma_run_key(t, s, e, ids1, ids2, Seq::empty());
    let g1 = gs1[r].0 as int;
    let g2 = gs2[r].0 as int;
    assert(group_live(r1.groups@, g1));
    assert(group_live(r2.groups@, g1));
    assert(group_live(r2.groups@, g2));
    assert(key_view(r2.groups@[g1]->0.key@) == key_view(r2.groups@[g2]->0.key@));
    assert(g1 == g2);
    assert(gs1[r] == gs2[r]);
    assert forall|x: int| 0 <= x < e implies #[trigger] ids1[x] == ids2[x] by {
        if x >= s {
            assert(ids1.subrange(s, e)[x - s] == ids2.subrange(s, e)[x - s]);
        }
    }
}

/// Hash-consing of modules: interning the same module twice in a row gives the same canonical id
/// for every type and the same interned group for every rec group, since each rec group's key
/// is found again.
pub proof fn lemma_intern_module_twice(r0: TypeRegistry, t: Seq<ModuleType>, r1: TypeRegistry,
    ids1: Seq<CanonicalTypeId>, gs1: Seq<GroupId>, r2: TypeRegistry, ids2: Seq<CanonicalTypeId>, gs2: Seq<GroupId>)
    requires
        module_types_ok(t),
        t.len() <= u32::MAX,
        r1.wf(),
        r2.wf(),
        module_interned(r0, t, r1, ids1, gs1),
        module_interned(r1, t, r2, ids2, gs2),
    ensures
        ids1 == ids2,
        gs1 == gs2,
{
    let rs = runs_from(t, 0);
    lemma_runs_from(t, 0);
    if rs.len() > 0 {
        lemma_twice_upto(r0, t, r1, ids1, gs1, r2, ids2, gs2, rs.len() - 1);
    }
    assert(ids1 =~= ids2);
    assert(gs1 =~= gs2);
}

impl TypeRegistry {
    /// The member ids of live group `g`.
    fn group_members(&self, g: GroupId) -> (m: Vec<CanonicalTypeId>)
        requires
            group_live(self.groups@, g.0 as int),
        ensures
            m@ == self.groups@[g.0 as int]->0.members@,
    {
        let mut out: Vec<CanonicalTypeId> = Vec::new();
        match &self.groups[g.index()] {
            Some(rec) => {
                for p in 0..rec.members.len()
                    invariant
                        out@ == rec.members@.subrange(0, p as int),
                {
                    out.push(rec.members[p]);
                    proof { assert(rec.members@.subrange(0, p + 1) =~= rec.members@.subrange(0, p as int).push(rec.members@[p as int])); }
                }
                proof { assert(rec.members@.subrange(0, rec.members@.len() as int) =~= rec.members@); }
            },
            None => {},
        }
        out
    }

    /// Interns a module's types, given in rec-group order (the members of a rec group share a
    /// group id and are contiguous). Returns the canonical id of every module type and the
    /// interned group of every rec group, with multiplicity, for the module to release later.
    pub fn intern_module(&mut self, types: &[ModuleType]) -> (r: (Vec<CanonicalTypeId>, Vec<GroupId>))
        requires
            old(self).wf(),
            module_types_ok(types@),
            old(self).types@.len() + types@.len() <= u32::MAX,
            old(self).groups@.len() + types@.len() < u32::MAX,
        ensures
            final(self).wf(),
            module_interned(*old(self), types@, *final(self), r.0@, r.1@),
            forall|p: Multiset<int>| pins_hold_with(old(self), p) && pending_live(old(self), p)
                ==> #[trigger] pins_hold_with(final(self), p.add(ids_ms(r.1@))),
            exists|chain: Seq<TypeRegistry>| #[trigger] intern_chain(chain, *old(self), *final(self), r.1@),
            pins_hold(old(self)) ==> pins_hold_with(final(self), ids_ms(r.1@)),
            pins_hold(old(self)) ==> pins_hold(final(self)),
    {
        let n = types.len();
        let ghost t = types@;
        let ghost start = *self;
        let mut module_to_canon: Vec<CanonicalTypeId> = Vec::new();
        for k in 0..n
            invariant
                module_to_canon@.len() == k,
        {
            module_to_canon.push(CanonicalTypeId::new(u32::MAX));
        }
        let mut registered: Vec<GroupId> = Vec::new();
        let ghost mut chain: Seq<TypeRegistry> = seq![start];
        let ghost mut done: Seq<(int, int)> = Seq::empty();
        proof {
            lemma_ids_ms_empty();
            assert forall|p: Multiset<int>| pins_hold_with(&start, p) && pending_live(&start, p)
                implies #[trigger] pins_hold_with(self, p.add(ids_ms(registered@))) by {
                assert(p.add(ids_ms(registered@)) =~= p);
            }
            lemma_runs_from(t, 0);
            assert(runs_from(t, 0) =~= done + runs_from(t, 0));
        }
        let mut i: usize = 0;
        while i < n
            invariant
                self.wf(),
                start.wf(),
                t == types@,
                n == t.len(),
                module_types_ok(t),
                start.types@.len() + n <= u32::MAX,
                start.groups@.len() + n < u32::MAX,
                i <= n,
                forall|p: Multiset<int>| pins_hold_with(&start, p) && pending_live(&start, p)
                    ==> #[trigger] pins_hold_with(self, p.add(ids_ms(registered@))),
                intern_chain(chain, start, *self, registered@),
                module_to_canon@.len() == n,
                done.len() == registered@.len(),
                registered@.len() <= i,
                runs_from(t, 0) == done + runs_from(t, i as int),
                self.types@.len() <= start.types@.len() + i,
                self.groups@.len() <= start.groups@.len() + registered@.len(),
                forall|r: int| 0 <= r < done.len() ==> #[trigger] is_run(t, done[r].0, done[r].1) && done[r].1 <= i,
                forall|r: int| 0 <= r < done.len() ==> {
                    let g = (#[trigger] registered@[r]).0 as int;
                    &&& group_live(self.groups@, g)
                    &&& key_view(self.groups@[g]->0.key@) == run_key(t, done[r].0, done[r].1, module_to_canon@)
                    &&& self.groups@[g]->0.members@ == module_to_canon@.subrange(done[r].0, done[r].1)
                },
                ids_live(module_to_canon@, i as int, self.types@),
                forall|h: int| #[trigger] group_live(start.groups@, h) ==> {
                    &&& group_live(self.groups@, h)
                    &&& self.groups@[h]->0.key@ == start.groups@[h]->0.key@
                    &&& self.groups@[h]->0.members@ == start.groups@[h]->0.members@
                },
                forall|x: int| #[trigger] type_live(start.types@, x) ==> self.types@[x] == start.types@[x],
                forall|h: int| #[trigger] group_live(self.groups@, h) ==> group_live(start.groups@, h)
                    || registered@.contains(GroupId(h as u32)),
            decreases n - i,
        {
            let base = i;
            let group = types[base].group;
            proof { lemma_run_end(t, base as int); }
            let ghost e = run_end(t, base as int);
            while i < n && types[i].group == group
                invariant
                    t == types@,
                    n == t.len(),
                    base < n,
                    group == t[base as int].group,
                    e == run_end(t, base as int),
                    base < e <= n,
                    forall|k: int| base <= k < e ==> #[trigger] t[k].group == t[base as int].group,
                    e < n ==> t[e].group != t[base as int].group,
                    base <= i <= e,
                decreases n - i,
            {
                i = i + 1;
            }
            let end = i;
            proof {
                assert(end == e);
                assert(is_run(t, base as int, end as int));
                assert(runs_from(t, base as int) =~= seq![(base as int, e)] + runs_from(t, e));
            }
            let key = self.build_key(types, base, end, module_to_canon.as_slice());
            let ghost before = *self;
            let ghost mtc0 = module_to_canon@;
            proof {
                lemma_run_key(t, base as int, end as int, mtc0, mtc0, self.types@);
                lemma_key_live_edges(key_view(key@), self.types@);
                assert(key_view(key@).len() == key@.len());
            }
            let group_id = self.intern_group(key);
            let ghost after = *self;
            proof {
                assert(interned_once(before, after, key_view(after.groups@[group_id.0 as int]->0.key@), group_id.0 as int));
                assert forall|h: int| #[trigger] ids_ms(registered@).count(h) > 0 implies group_live(before.groups@, h) by {
                    lemma_ids_ms_count(registered@, h);
                    let r = choose|r: int| 0 <= r < registered@.len() && (#[trigger] registered@[r]).0 == h;
                    assert(group_live(before.groups@, registered@[r].0 as int));
                }
                assert forall|p: Multiset<int>| pins_hold_with(&start, p) && pending_live(&start, p)
                    implies #[trigger] pins_hold_with(&*self, p.add(ids_ms(registered@)).insert(group_id.0 as int)) by {
                    let q = p.add(ids_ms(registered@));
                    assert(pins_hold_with(&before, q));
                    assert forall|h: int| #[trigger] q.count(h) > 0 implies group_live(before.groups@, h) by {
                        if p.count(h) > 0 {
                            assert(group_live(start.groups@, h));
                        } else {
                            assert(ids_ms(registered@).count(h) > 0);
                        }
                    }
                    assert(pending_live(&before, q));
                }
            }
            let canon = self.group_members(group_id);
            proof {
                assert(canon@.len() == end - base);
            }
            for p in 0..(end - base)
                invariant
                    base < end <= n,
                    canon@.len() == end - base,
                    module_to_canon@.len() == n,
                    forall|x: int| 0 <= x < n && (x < base || x >= base + p) ==> #[trigger] module_to_canon@[x] == mtc0[x],
                    forall|q: int| 0 <= q < p ==> #[trigger] module_to_canon@[base + q] == canon@[q],
            {
                module_to_canon.set(base + p, canon[p]);
            }
            proof {
                let mtc1 = module_to_canon@;
                let gi = group_id.0 as int;
                assert(mtc1.subrange(base as int, end as int) =~= canon@);
                assert forall|x: int| 0 <= x < base implies #[trigger] mtc0[x] == mtc1[x] by {}
                lemma_run_key(t, base as int, end as int, mtc0, mtc1, self.types@);
                // earlier runs keep their keys and members
                assert forall|r: int| 0 <= r < done.len() implies {
                    let g = (#[trigger] registered@[r]).0 as int;
                    &&& group_live(self.groups@, g)
                    &&& key_view(self.groups@[g]->0.key@) == run_key(t, done[r].0, done[r].1, mtc1)
                    &&& self.groups@[g]->0.members@ == mtc1.subrange(done[r].0, done[r].1)
                } by {
                    let g = registered@[r].0 as int;
                    assert(is_run(t, done[r].0, done[r].1));
                    assert(group_live(before.groups@, g));
                    assert forall|x: int| 0 <= x < done[r].0 implies #[trigger] mtc0[x] == mtc1[x] by {}
                    lemma_run_key(t, done[r].0, done[r].1, mtc0, mtc1, Seq::empty());
                    assert(mtc1.subrange(done[r].0, done[r].1) =~= mtc0.subrange(done[r].0, done[r].1));
                }
                assert forall|x: int| 0 <= x < end implies type_live(self.types@, (#[trigger] mtc1[x]).0 as int) by {
                    if x < base {
                        assert(type_live(before.types@, mtc0[x].0 as int));
                    } else {
                        assert(mtc1[x] == canon@[x - base]);
                        let m = self.groups@[gi]->0.members@[x - base];
                        assert(type_live(self.types@, m.0 as int));
                    }
                }
                assert forall|h: int| #[trigger] group_live(start.groups@, h) implies {
                    &&& group_live(self.groups@, h)
                    &&& self.groups@[h]->0.key@ == start.groups@[h]->0.key@
                    &&& self.groups@[h]->0.members@ == start.groups@[h]->0.members@
                } by {
                    assert(group_live(before.groups@, h));
                }
                assert forall|x: int| #[trigger] type_live(start.types@, x) implies self.types@[x] == start.types@[x] by {
                    assert(type_live(before.types@, x));
                }
            }
            let ghost reg0 = registered@;
            registered.push(group_id);
            proof {
                lemma_ids_ms_push(reg0, group_id);
                let c0 = chain;
                chain = chain.push(after);
                assert forall|i: int| 0 <= i < registered@.len() implies interned_once(chain[i], chain[i + 1],
                    key_view(chain[i + 1].groups@[(#[trigger] registered@[i]).0 as int]->0.key@), registered@[i].0 as int) by {
                    if i < reg0.len() {
                        assert(registered@[i] == reg0[i]);
                        assert(chain[i] == c0[i] && chain[i + 1] == c0[i + 1]);
                    } else {
                        assert(chain[i] == before);
                    }
                }
                assert(intern_chain(chain, start, after, registered@));
                assert forall|p: Multiset<int>| pins_hold_with(&start, p) && pending_live(&start, p)
                    implies #[trigger] pins_hold_with(self, p.add(ids_ms(registered@))) by {
                    assert(p.add(ids_ms(registered@)) =~= p.add(ids_ms(reg0)).insert(group_id.0 as int));
                }
                let new_done = done.push((base as int, end as int));
                assert(runs_from(t, 0) =~= new_done + runs_from(t, end as int));
                assert forall|h: int| #[trigger] group_live(self.groups@, h) implies group_live(start.groups@, h)
                    || registered@.contains(GroupId(h as u32)) by {
                    if h == group_id.0 {
                        assert(registered@[registered@.len() - 1] == group_id);
                    } else {
                        assert(group_live(before.groups@, h));
                        if reg0.contains(GroupId(h as u32)) {
                            let q = choose|q: int| 0 <= q < reg0.len() && reg0[q] == GroupId(h as u32);
                            assert(registered@[q] == GroupId(h as u32));
                        }
                    }
                }
                done = new_done;
            }
        }
        proof {
            assert(runs_from(t, n as int) =~= Seq::<(int, int)>::empty());
            assert(done =~= runs_from(t, 0));
            if pins_hold(&start) {
                assert(pending_live(&start, Multiset::<int>::empty()));
                assert(Multiset::<int>::empty().add(ids_ms(registered@)) =~= ids_ms(registered@));
                assert(pins_hold_with(self, Multiset::<int>::empty().add(ids_ms(registered@))));
                lemma_pins_mono(self, ids_ms(registered@), Multiset::empty());
            }
        }
        (module_to_canon, registered)
    }
}

// --- interning host-built types ---

/// Every entry of a canonical-id table names a live type.
pub open spec fn table_live(table: Seq<CanonicalTypeId>, types: Seq<Option<TypeSlot>>) -> bool {
    forall|x: int| 0 <= x < table.len() ==> type_live(types, (#[trigger] table[x]).0 as int)
}

proof fn lemma_val_key_generic(v: IrVal, map: RefMapView, types: Seq<Option<TypeSlot>>)
    requires
        val_refs_ok(v, map),
        map.lo <= map.hi,
    ensures
        cval_ok(spec_val_key(v, map), (map.hi - map.lo) as nat),
        table_live(map.table, types) ==> cval_live(spec_val_key(v, map), types),
{
    match v {
        IrVal::Ref { heap: IrHeap::Concrete(m, _), .. } => {
            if !(map.lo <= m < map.hi) {
                if table_live(map.table, types) {
                    assert(type_live(types, map.table[m - map.table_base].0 as int));
                }
            }
        },
        _ => {},
    }
}

proof fn lemma_field_key_generic(f: IrField, map: RefMapView, types: Seq<Option<TypeSlot>>)
    requires
        field_refs_ok(f, map),
        map.lo <= map.hi,
    ensures
        cfield_ok(spec_field_key(f, map), (map.hi - map.lo) as nat),
        table_live(map.table, types) ==> cfield_live(spec_field_key(f, map), types),
{
    match f.storage {
        IrStorage::Val(v) => lemma_val_key_generic(v, map, types),
        _ => {},
    }
}

/// The key of a type whose references are mappable: relative references stay below
/// `hi - lo`, and absolute ones are live when the whole table is.
proof fn lemma_type_key_generic(t: ModuleType, map: RefMapView, types: Seq<Option<TypeSlot>>)
    requires
        body_refs_ok(t.body, map),
        match t.supertype { Some(m) => cref_ok(map, m), None => true },
        map.lo <= map.hi,
    ensures
        ({
            let k = spec_type_key(t, map);
            &&& match k.supertype { Some(r) => ref_ok(r, (map.hi - map.lo) as nat), None => true }
            &&& body_ok(k.body, (map.hi - map.lo) as nat)
            &&& table_live(map.table, types) ==> match k.supertype { Some(CanonRef::Canon(id)) => type_live(types, id.0 as int), _ => true }
            &&& table_live(map.table, types) ==> body_live(k.body, types)
        }),
{
    match t.supertype {
        Some(m) => {
            if !(map.lo <= m < map.hi) && table_live(map.table, types) {
                assert(type_live(types, map.table[m - map.table_base].0 as int));
            }
        },
        None => {},
    }
    match t.body {
        CompositeBody::Func { params, results } => {
            assert forall|i: int| 0 <= i < params@.len() implies {
                &&& cval_ok(spec_val_key(#[trigger] params@[i], map), (map.hi - map.lo) as nat)
                &&& table_live(map.table, types) ==> cval_live(spec_val_key(params@[i], map), types)
            } by {
                lemma_val_key_generic(params@[i], map, types);
            }
            assert forall|i: int| 0 <= i < results@.len() implies {
                &&& cval_ok(spec_val_key(#[trigger] results@[i], map), (map.hi - map.lo) as nat)
                &&& table_live(map.table, types) ==> cval_live(spec_val_key(results@[i], map), types)
            } by {
                lemma_val_key_generic(results@[i], map, types);
            }
        },
        CompositeBody::Struct(fs) => {
            assert forall|i: int| 0 <= i < fs@.len() implies {
                &&& cfield_ok(spec_field_key(#[trigger] fs@[i], map), (map.hi - map.lo) as nat)
                &&& table_live(map.table, types) ==> cfield_live(spec_field_key(fs@[i], map), types)
            } by {
                lemma_field_key_generic(fs@[i], map, types);
            }
        },
        CompositeBody::Array(f) => lemma_field_key_generic(f, map, types),
    }
}

/// The reference map of a host-built group of `n` members: indices below `n` are siblings,
/// index `n + x` is `externals[x]`.
pub open spec fn host_map(n: int, externals: Seq<CanonicalTypeId>) -> RefMapView {
    RefMapView { lo: 0, hi: n as u32, table: externals, table_base: n as u32 }
}

/// The canonical key of a host-built group.
pub open spec fn host_key(members: Seq<ModuleType>, externals: Seq<CanonicalTypeId>) -> Seq<CTypeView> {
    Seq::new(members.len(), |p: int| spec_type_key(members[p], host_map(members.len() as int, externals)))
}

/// Every reference of a host-built group's members names a sibling or an external.
pub open spec fn host_refs_ok(members: Seq<ModuleType>, externals: Seq<CanonicalTypeId>) -> bool {
    forall|i: int| 0 <= i < members.len() ==> {
        &&& body_refs_ok((#[trigger] members[i]).body, host_map(members.len() as int, externals))
        &&& match members[i].supertype { Some(m) => cref_ok(host_map(members.len() as int, externals), m), None => true }
    }
}

/// What interning a new singleton or host group leaves, besides the group itself: groups and
/// types that were live stay as they were, and the only new live group is `g`.
pub open spec fn group_added(before: TypeRegistry, after: TypeRegistry, g: GroupId) -> bool {
    &&& group_live(after.groups@, g.0 as int)
    &&& forall|h: int| #[trigger] group_live(before.groups@, h) ==> {
        &&& group_live(after.groups@, h)
        &&& after.groups@[h]->0.key@ == before.groups@[h]->0.key@
        &&& after.groups@[h]->0.members@ == before.groups@[h]->0.members@
    }
    &&& forall|x: int| #[trigger] type_live(before.types@, x) ==> after.types@[x] == before.types@[x]
    &&& forall|h: int| #[trigger] group_live(after.groups@, h) ==> group_live(before.groups@, h) || h == g.0
}

/// The key entry of a host-built singleton type.
pub open spec fn single_key(finality: crate::value::Finality, supertype: Option<CanonicalTypeId>, body: CBodyView) -> Seq<CTypeView> {
    seq![CTypeView {
        finality,
        supertype: match supertype { Some(id) => Some(CanonRef::Canon(id)), None => None },
        body,
    }]
}

impl TypeRegistry {
    /// Interns a single host-built composite type (a singleton rec group) whose body refers to
    /// canonical ids only. Returns its canonical id and its group.
    pub fn intern_one(&mut self, finality: crate::value::Finality, supertype: Option<CanonicalTypeId>, body: CBody) -> (r: (CanonicalTypeId, GroupId))
        requires
            old(self).wf(),
            body_ok(body@, 0),
            body_live(body@, old(self).types@),
            match supertype { Some(id) => type_live(old(self).types@, id.0 as int), None => true },
            old(self).types@.len() + 1 <= u32::MAX,
            old(self).groups@.len() < u32::MAX,
        ensures
            final(self).wf(),
            group_added(*old(self), *final(self), r.1),
            key_view(final(self).groups@[r.1.0 as int]->0.key@) == single_key(finality, supertype, body@),
            final(self).groups@[r.1.0 as int]->0.members@ == seq![r.0],
            pins_hold(old(self)) ==> pins_hold(final(self)),
            pins_hold(old(self)) ==> holds_registration(final(self), r.1.0 as int),
    {
        let ghost bv = body@;
        let key = vec![CType {
            finality,
            supertype: match supertype { Some(id) => Some(CanonRef::Canon(id)), None => None },
            body,
        }];
        proof {
            let kv = key_view(key@);
            assert(kv =~= single_key(finality, supertype, bv));
            assert(kv[0].body == bv);
            match bv {
                CBodyView::Func(p, q) => {
                    assert forall|i: int| 0 <= i < p.len() implies cval_ok(#[trigger] p[i], 1) by { assert(cval_ok(p[i], 0)); }
                    assert forall|i: int| 0 <= i < q.len() implies cval_ok(#[trigger] q[i], 1) by { assert(cval_ok(q[i], 0)); }
                },
                CBodyView::Struct(fs) => {
                    assert forall|i: int| 0 <= i < fs.len() implies cfield_ok(#[trigger] fs[i], 1) by { assert(cfield_ok(fs[i], 0)); }
                },
                CBodyView::Array(f) => {},
            }
            assert(key_rel_ok(kv));
            assert(key_live(kv, self.types@));
            lemma_key_live_edges(kv, self.types@);
        }
        let ghost before = *self;
        let g = self.intern_group(key);
        proof {
            if pins_hold(&before) {
                broadcast use vstd::multiset::group_multiset_axioms;
                assert(pins_hold_with(&*self, Multiset::<int>::empty().insert(g.0 as int)));
            }
        }
        let members = self.group_members(g);
        proof {
            assert(members@.len() == 1);
            assert(members@ =~= seq![members@[0]]);
        }
        (members[0], g)
    }

    /// Interns a host-built function type.
    pub fn intern_func(&mut self, params: &[ValType], results: &[ValType]) -> (r: (CanonicalTypeId, GroupId))
        requires
            old(self).wf(),
            body_live(CBodyView::Func(params@.map_values(|v: ValType| spec_pub_val(v)), results@.map_values(|v: ValType| spec_pub_val(v))), old(self).types@),
            old(self).types@.len() + 1 <= u32::MAX,
            old(self).groups@.len() < u32::MAX,
        ensures
            final(self).wf(),
            group_added(*old(self), *final(self), r.1),
            key_view(final(self).groups@[r.1.0 as int]->0.key@) == single_key(crate::value::Finality::Final, None,
                CBodyView::Func(params@.map_values(|v: ValType| spec_pub_val(v)), results@.map_values(|v: ValType| spec_pub_val(v)))),
            final(self).groups@[r.1.0 as int]->0.members@ == seq![r.0],
            pins_hold(old(self)) ==> pins_hold(final(self)),
            pins_hold(old(self)) ==> holds_registration(final(self), r.1.0 as int),
    {
        let body = func_body(params, results);
        proof { lemma_pub_vals_ok(params@); lemma_pub_vals_ok(results@); }
        self.intern_one(crate::value::Finality::Final, None, body)
    }

    /// Interns a host-built struct type.
    pub fn intern_struct(&mut self, finality: crate::value::Finality, supertype: Option<CanonicalTypeId>, fields: &[FieldType]) -> (r: (CanonicalTypeId, GroupId))
        requires
            old(self).wf(),
            body_live(CBodyView::Struct(fields@.map_values(|f: FieldType| spec_pub_field(f))), old(self).types@),
            match supertype { Some(id) => type_live(old(self).types@, id.0 as int), None => true },
            old(self).types@.len() + 1 <= u32::MAX,
            old(self).groups@.len() < u32::MAX,
        ensures
            final(self).wf(),
            group_added(*old(self), *final(self), r.1),
            key_view(final(self).groups@[r.1.0 as int]->0.key@) == single_key(finality, supertype,
                CBodyView::Struct(fields@.map_values(|f: FieldType| spec_pub_field(f)))),
            final(self).groups@[r.1.0 as int]->0.members@ == seq![r.0],
            pins_hold(old(self)) ==> pins_hold(final(self)),
            pins_hold(old(self)) ==> holds_registration(final(self), r.1.0 as int),
    {
        let body = struct_body(fields);
        proof { lemma_pub_fields_ok(fields@); }
        self.intern_one(finality, supertype, body)
    }

    /// Interns a host-built array type.
    pub fn intern_array(&mut self, finality: crate::value::Finality, supertype: Option<CanonicalTypeId>, field: &FieldType) -> (r: (CanonicalTypeId, GroupId))
        requires
            old(self).wf(),
            body_live(CBodyView::Array(spec_pub_field(*field)), old(self).types@),
            match supertype { Some(id) => type_live(old(self).types@, id.0 as int), None => true },
            old(self).types@.len() + 1 <= u32::MAX,
            old(self).groups@.len() < u32::MAX,
        ensures
            final(self).wf(),
            group_added(*old(self), *final(self), r.1),
            key_view(final(self).groups@[r.1.0 as int]->0.key@) == single_key(finality, supertype,
                CBodyView::Array(spec_pub_field(*field))),
            final(self).groups@[r.1.0 as int]->0.members@ == seq![r.0],
            pins_hold(old(self)) ==> pins_hold(final(self)),
            pins_hold(old(self)) ==> holds_registration(final(self), r.1.0 as int),
    {
        let body = array_body(field);
        self.intern_one(finality, supertype, body)
    }

    /// Interns a host-built rec group: a member's reference `mi` names sibling `mi` when
    /// `mi < members.len()`, and the already-canonical `externals[mi - members.len()]` otherwise.
    /// Returns the members' canonical ids and the group.
    pub fn intern_host_group(&mut self, members: &[ModuleType], externals: &[CanonicalTypeId]) -> (r: (Vec<CanonicalTypeId>, GroupId))
        requires
            old(self).wf(),
            host_refs_ok(members@, externals@),
            table_live(externals@, old(self).types@),
            old(self).types@.len() + members@.len() <= u32::MAX,
            old(self).groups@.len() < u32::MAX,
        ensures
            final(self).wf(),
            group_added(*old(self), *final(self), r.1),
            key_view(final(self).groups@[r.1.0 as int]->0.key@) == host_key(members@, externals@),
            final(self).groups@[r.1.0 as int]->0.members@ == r.0@,
            pins_hold(old(self)) ==> pins_hold(final(self)),
            pins_hold(old(self)) ==> holds_registration(final(self), r.1.0 as int),
    {
        let n = members.len();
        let map = RefMap { lo: 0, hi: n as u32, table: externals, table_base: n as u32 };
        let ghost mv = host_map(n as int, externals@);
        let mut key: Vec<CType> = Vec::new();
        for j in 0..n
            invariant
                n == members@.len(),
                n <= u32::MAX,
                map@ == mv,
                mv == host_map(n as int, externals@),
                host_refs_ok(members@, externals@),
                key@.len() == j,
                forall|p: int| 0 <= p < key@.len() ==> (#[trigger] key@[p])@ == spec_type_key(members@[p], mv),
        {
            let t = &members[j];
            proof { assert(members@[j as int] == *t); }
            let supertype = match t.supertype {
                Some(m) => Some(cref(&map, m)),
                None => None,
            };
            let body = body_key(&t.body, &map);
            key.push(CType { finality: t.finality, supertype, body });
        }
        proof {
            let kv = key_view(key@);
            assert(kv =~= host_key(members@, externals@));
            assert forall|p: int| 0 <= p < kv.len() implies {
                &&& (match (#[trigger] kv[p]).supertype { Some(r) => ref_ok(r, kv.len()), None => true })
                &&& body_ok(kv[p].body, kv.len())
                &&& (match kv[p].supertype { Some(CanonRef::Canon(id)) => type_live(self.types@, id.0 as int), _ => true })
                &&& body_live(kv[p].body, self.types@)
            } by {
                lemma_type_key_generic(members@[p], mv, self.types@);
            }
            assert(key_rel_ok(kv));
            lemma_key_live_edges(kv, self.types@);
            assert(kv.len() == key@.len());
        }
        let ghost before = *self;
        let g = self.intern_group(key);
        proof {
            if pins_hold(&before) {
                broadcast use vstd::multiset::group_multiset_axioms;
                assert(pins_hold_with(&*self, Multiset::<int>::empty().insert(g.0 as int)));
            }
        }
        let ids = self.group_members(g);
        (ids, g)
    }
}

/// Bodies built from public types have no relative references.
proof fn lemma_pub_vals_ok(vs: Seq<ValType>)
    ensures
        ({
            let m = vs.map_values(|v: ValType| spec_pub_val(v));
            forall|i: int| 0 <= i < m.len() ==> cval_ok(#[trigger] m[i], 0)
        }),
{
}

proof fn lemma_pub_fields_ok(fs: Seq<FieldType>)
    ensures
        ({
            let m = fs.map_values(|f: FieldType| spec_pub_field(f));
            forall|i: int| 0 <= i < m.len() ==> cfield_ok(#[trigger] m[i], 0)
        }),
{
}

} // verus!
