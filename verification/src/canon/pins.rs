//! Registration accounting across rec groups. A group's key references types of other groups,
//! and a newly interned group takes one registration of each referenced group per reference:
//! as long as every release gives back a registration its caller holds, a group referenced by a
//! live group keeps at least as many registrations as it has such references, so it stays live,
//! and the references of live groups never dangle.
use vstd::prelude::*;
use vstd::multiset::Multiset;
use crate::canon::{CanonicalTypeId, GroupId};
use crate::canon::keys::CType;
use crate::canon::registry::{TypeRegistry, TypeSlot, GroupRecord, group_live, type_live, key_edges, key_view, owned_count,
    edges_live, same_but_counts, sat_add};

verus! {

/// The type ids the key of group slot `k` references outside its group.
pub open spec fn group_edges(groups: Seq<Option<GroupRecord>>, k: int) -> Seq<CanonicalTypeId> {
    key_edges(key_view(groups[k]->0.key@))
}

/// The references from the keys of live groups among slots `0..n` to types owned by group `h`.
pub open spec fn incoming_upto(groups: Seq<Option<GroupRecord>>, types: Seq<Option<TypeSlot>>, h: int, n: int) -> nat
    decreases n,
{
    if n <= 0 {
        0
    } else {
        incoming_upto(groups, types, h, n - 1)
            + if group_live(groups, n - 1) { owned_count(group_edges(groups, n - 1), types, h) } else { 0 }
    }
}

/// The references from the keys of all live groups to types owned by group `h`.
pub open spec fn incoming(groups: Seq<Option<GroupRecord>>, types: Seq<Option<TypeSlot>>, h: int) -> nat {
    incoming_upto(groups, types, h, groups.len() as int)
}

/// The registrations of `r` are accounted for, with the releases `pending` still to come: every
/// reference of a live group's key names a live type, and every live group that is not pinned
/// has at least as many registrations as references into it from live groups plus pending
/// releases.
pub open spec fn pins_hold_with(r: &TypeRegistry, pending: Multiset<int>) -> bool {
    &&& forall|g: int| #[trigger] group_live(r.groups@, g) ==> edges_live(key_view(r.groups@[g]->0.key@), r.types@)
    &&& forall|h: int| #[trigger] group_live(r.groups@, h) ==> r.groups@[h]->0.refcount == u32::MAX
        || r.groups@[h]->0.refcount >= incoming(r.groups@, r.types@, h) + pending.count(h)
}

/// The registrations of `r` are accounted for (see [`pins_hold_with`]).
pub open spec fn pins_hold(r: &TypeRegistry) -> bool {
    pins_hold_with(r, Multiset::empty())
}

/// The caller holds a registration of group `g`: releasing it keeps the accounting.
pub open spec fn holds_registration(r: &TypeRegistry, g: int) -> bool {
    pins_hold_with(r, Multiset::empty().insert(g))
}

/// The edges of `edges` owned by `h` are the same under both type tables when each edge is owned
/// by `h` in one exactly when it is in the other.
pub proof fn lemma_owned_count_same(edges: Seq<CanonicalTypeId>, t1: Seq<Option<TypeSlot>>, t2: Seq<Option<TypeSlot>>, h: int)
    requires
        forall|i: int| 0 <= i < edges.len() ==>
            (type_live(t1, (#[trigger] edges[i]).0 as int) && t1[edges[i].0 as int]->0.group.0 == h)
            == (type_live(t2, edges[i].0 as int) && t2[edges[i].0 as int]->0.group.0 == h),
    ensures
        owned_count(edges, t1, h) == owned_count(edges, t2, h),
    decreases edges.len(),
{
    if edges.len() > 0 {
        let d = edges.drop_last();
        assert forall|i: int| 0 <= i < d.len() implies
            (type_live(t1, (#[trigger] d[i]).0 as int) && t1[d[i].0 as int]->0.group.0 == h)
            == (type_live(t2, d[i].0 as int) && t2[d[i].0 as int]->0.group.0 == h) by {
            assert(d[i] == edges[i]);
        }
        lemma_owned_count_same(d, t1, t2, h);
        assert(edges.last() == edges[edges.len() - 1]);
    }
}

/// No edge counted for `h` means no edge names a live type owned by `h`.
pub proof fn lemma_owned_count_zero(edges: Seq<CanonicalTypeId>, t: Seq<Option<TypeSlot>>, h: int, i: int)
    requires
        owned_count(edges, t, h) == 0,
        0 <= i < edges.len(),
    ensures
        !(type_live(t, edges[i].0 as int) && t[edges[i].0 as int]->0.group.0 == h),
    decreases edges.len(),
{
    if i < edges.len() - 1 {
        assert(edges.drop_last()[i] == edges[i]);
        lemma_owned_count_zero(edges.drop_last(), t, h, i);
    }
}

/// The references into `h` of two states whose slots other than `gx` agree (same liveness, same
/// counts into `h`) differ by what slot `gx` contributes in each.
pub proof fn lemma_incoming_change(g1: Seq<Option<GroupRecord>>, t1: Seq<Option<TypeSlot>>, g2: Seq<Option<GroupRecord>>,
    t2: Seq<Option<TypeSlot>>, h: int, n: int, gx: int)
    requires
        forall|k: int| 0 <= k < n && k != gx ==> #[trigger] group_live(g1, k) == group_live(g2, k),
        forall|k: int| 0 <= k < n && k != gx && #[trigger] group_live(g1, k) ==>
            owned_count(group_edges(g1, k), t1, h) == owned_count(group_edges(g2, k), t2, h),
    ensures
        incoming_upto(g2, t2, h, n) + (if 0 <= gx < n && group_live(g1, gx) { owned_count(group_edges(g1, gx), t1, h) } else { 0 })
            == incoming_upto(g1, t1, h, n) + (if 0 <= gx < n && group_live(g2, gx) { owned_count(group_edges(g2, gx), t2, h) } else { 0 }),
    decreases n,
{
    if n > 0 {
        lemma_incoming_change(g1, t1, g2, t2, h, n - 1, gx);
        if n - 1 != gx {
            assert(group_live(g1, n - 1) == group_live(g2, n - 1));
        }
    }
}

/// The group ids of `s` as a multiset of slot indices.
pub open spec fn ids_ms(s: Seq<GroupId>) -> Multiset<int> {
    s.map_values(|x: GroupId| x.0 as int).to_multiset()
}

pub proof fn lemma_ids_ms_push(s: Seq<GroupId>, x: GroupId)
    ensures
        ids_ms(s.push(x)) =~= ids_ms(s).insert(x.0 as int),
{
    broadcast use vstd::seq_lib::group_to_multiset_ensures;
    assert(s.push(x).map_values(|y: GroupId| y.0 as int) =~= s.map_values(|y: GroupId| y.0 as int).push(x.0 as int));
}

/// A group id with a positive count occurs in the sequence.
pub proof fn lemma_ids_ms_count(s: Seq<GroupId>, h: int)
    ensures
        ids_ms(s).count(h) > 0 ==> exists|i: int| 0 <= i < s.len() && (#[trigger] s[i]).0 == h,
{
    broadcast use vstd::seq_lib::group_to_multiset_ensures;
    let m = s.map_values(|x: GroupId| x.0 as int);
    if ids_ms(s).count(h) > 0 {
        assert(m.contains(h));
        let i = choose|i: int| 0 <= i < m.len() && m[i] == h;
        assert(s[i].0 == h);
    }
}

pub proof fn lemma_ids_ms_empty()
    ensures
        ids_ms(Seq::<GroupId>::empty()) =~= Multiset::<int>::empty(),
{
    broadcast use vstd::seq_lib::group_to_multiset_ensures;
    assert(Seq::<GroupId>::empty().map_values(|y: GroupId| y.0 as int) =~= Seq::<int>::empty());
    assert(Seq::<int>::empty().to_multiset().len() == 0);
}

/// No edge owned by `h` gives a count of zero.
pub proof fn lemma_owned_count_none(edges: Seq<CanonicalTypeId>, t: Seq<Option<TypeSlot>>, h: int)
    requires
        forall|i: int| 0 <= i < edges.len() ==> !(type_live(t, (#[trigger] edges[i]).0 as int) && t[edges[i].0 as int]->0.group.0 == h),
    ensures
        owned_count(edges, t, h) == 0,
    decreases edges.len(),
{
    if edges.len() > 0 {
        let d = edges.drop_last();
        assert forall|i: int| 0 <= i < d.len() implies !(type_live(t, (#[trigger] d[i]).0 as int) && t[d[i].0 as int]->0.group.0 == h) by {
            assert(d[i] == edges[i]);
        }
        lemma_owned_count_none(d, t, h);
        assert(edges.last() == edges[edges.len() - 1]);
    }
}

/// A sum of references that is zero has every live slot's term zero.
pub proof fn lemma_incoming_zero_each(groups: Seq<Option<GroupRecord>>, types: Seq<Option<TypeSlot>>, h: int, n: int, k: int)
    requires
        incoming_upto(groups, types, h, n) == 0,
        0 <= k < n,
        group_live(groups, k),
    ensures
        owned_count(group_edges(groups, k), types, h) == 0,
    decreases n,
{
    if k < n - 1 {
        lemma_incoming_zero_each(groups, types, h, n - 1, k);
    }
}

/// Every live slot's term zero makes the sum zero.
pub proof fn lemma_incoming_zero(groups: Seq<Option<GroupRecord>>, types: Seq<Option<TypeSlot>>, h: int, n: int)
    requires
        forall|k: int| 0 <= k < n && #[trigger] group_live(groups, k) ==> owned_count(group_edges(groups, k), types, h) == 0,
    ensures
        incoming_upto(groups, types, h, n) == 0,
    decreases n,
{
    if n > 0 {
        lemma_incoming_zero(groups, types, h, n - 1);
    }
}

/// Two states that differ only in registration counts have the same references.
pub proof fn lemma_same_keys_same_incoming(a: &TypeRegistry, b: &TypeRegistry, h: int)
    requires
        same_but_counts(a, b),
    ensures
        incoming(a.groups@, a.types@, h) == incoming(b.groups@, b.types@, h),
{
    let n = a.groups@.len() as int;
    assert forall|k: int| 0 <= k < n && k != -1 implies #[trigger] group_live(a.groups@, k) == group_live(b.groups@, k) by {}
    assert forall|k: int| 0 <= k < n && k != -1 && #[trigger] group_live(a.groups@, k) implies
        owned_count(group_edges(a.groups@, k), a.types@, h) == owned_count(group_edges(b.groups@, k), b.types@, h) by {}
    lemma_incoming_change(a.groups@, a.types@, b.groups@, b.types@, h, n, -1);
}

/// Registrations that only grow (or saturate) keep the accounting.
pub proof fn lemma_counts_grow(a: &TypeRegistry, b: &TypeRegistry, p: Multiset<int>)
    requires
        same_but_counts(a, b),
        forall|h: int| #[trigger] group_live(a.groups@, h) ==> b.groups@[h]->0.refcount == u32::MAX
            || b.groups@[h]->0.refcount >= a.groups@[h]->0.refcount,
        forall|h: int| #[trigger] group_live(a.groups@, h) && a.groups@[h]->0.refcount == u32::MAX ==> b.groups@[h]->0.refcount == u32::MAX,
        pins_hold_with(a, p),
    ensures
        pins_hold_with(b, p),
{
    assert forall|g: int| #[trigger] group_live(b.groups@, g) implies edges_live(key_view(b.groups@[g]->0.key@), b.types@) by {
        assert(group_live(a.groups@, g));
    }
    assert forall|h: int| #[trigger] group_live(b.groups@, h) implies b.groups@[h]->0.refcount == u32::MAX
        || b.groups@[h]->0.refcount >= incoming(b.groups@, b.types@, h) + p.count(h) by {
        assert(group_live(a.groups@, h));
        lemma_same_keys_same_incoming(a, b, h);
    }
}

/// Giving back one pending registration of `g` (above one, not pinned) keeps the accounting of
/// the remaining ones.
pub proof fn lemma_decrement_pins(a: &TypeRegistry, b: &TypeRegistry, g: int, p: Multiset<int>)
    requires
        same_but_counts(a, b),
        group_live(a.groups@, g),
        a.groups@[g]->0.refcount < u32::MAX,
        b.groups@[g]->0.refcount == a.groups@[g]->0.refcount - 1,
        forall|h: int| 0 <= h < a.groups@.len() && h != g ==> #[trigger] b.groups@[h] == a.groups@[h],
        pins_hold_with(a, p.insert(g)),
    ensures
        pins_hold_with(b, p),
{
    assert forall|k: int| #[trigger] group_live(b.groups@, k) implies edges_live(key_view(b.groups@[k]->0.key@), b.types@) by {
        assert(group_live(a.groups@, k));
    }
    assert forall|h: int| #[trigger] group_live(b.groups@, h) implies b.groups@[h]->0.refcount == u32::MAX
        || b.groups@[h]->0.refcount >= incoming(b.groups@, b.types@, h) + p.count(h) by {
        assert(group_live(a.groups@, h));
        lemma_same_keys_same_incoming(a, b, h);
        if h != g {
            assert(b.groups@[h] == a.groups@[h]);
        }
    }
}

/// Reclaiming group `g` whose last registration was a pending one: no live group referenced it,
/// and the releases of the groups it referenced become pending.
pub proof fn lemma_reclaim_pins(a: &TypeRegistry, b: &TypeRegistry, g: int, p: Multiset<int>, owned: Multiset<int>)
    requires
        a.wf(),
        group_live(a.groups@, g),
        a.groups@[g]->0.refcount == 1,
        pins_hold_with(a, p.insert(g)),
        b.groups@.len() == a.groups@.len(),
        b.groups@[g] is None,
        forall|h: int| 0 <= h < a.groups@.len() && h != g ==> #[trigger] b.groups@[h] == a.groups@[h],
        forall|t: int| #[trigger] type_live(b.types@, t) <==> (type_live(a.types@, t) && a.types@[t]->0.group.0 != g),
        forall|t: int| #[trigger] type_live(b.types@, t) ==> b.types@[t] == a.types@[t],
        forall|x: int| #[trigger] owned.count(x) == owned_count(group_edges(a.groups@, g), a.types@, x),
    ensures
        pins_hold_with(b, p.add(owned)),
{
    let n = a.groups@.len() as int;
    // nothing live referenced g
    assert(incoming(a.groups@, a.types@, g) == 0);
    assert forall|k: int| #[trigger] group_live(a.groups@, k) implies owned_count(group_edges(a.groups@, k), a.types@, g) == 0 by {
        lemma_incoming_zero_each(a.groups@, a.types@, g, n, k);
    }
    // the references of the surviving groups are unaffected
    assert forall|k: int| #[trigger] group_live(b.groups@, k) implies edges_live(key_view(b.groups@[k]->0.key@), b.types@) by {
        assert(k != g && group_live(a.groups@, k));
        let es = group_edges(a.groups@, k);
        assert(edges_live(key_view(a.groups@[k]->0.key@), a.types@));
        assert forall|i: int| 0 <= i < key_edges(key_view(b.groups@[k]->0.key@)).len() implies
            type_live(b.types@, (#[trigger] key_edges(key_view(b.groups@[k]->0.key@))[i]).0 as int) by {
            assert(type_live(a.types@, es[i].0 as int));
            lemma_owned_count_zero(es, a.types@, g, i);
        }
    }
    assert forall|h: int| #[trigger] group_live(b.groups@, h) implies b.groups@[h]->0.refcount == u32::MAX
        || b.groups@[h]->0.refcount >= incoming(b.groups@, b.types@, h) + p.add(owned).count(h) by {
        assert(h != g && group_live(a.groups@, h));
        assert forall|k: int| 0 <= k < n && k != g implies #[trigger] group_live(a.groups@, k) == group_live(b.groups@, k) by {
            assert(b.groups@[k] == a.groups@[k]);
        }
        assert forall|k: int| 0 <= k < n && k != g && #[trigger] group_live(a.groups@, k) implies
            owned_count(group_edges(a.groups@, k), a.types@, h) == owned_count(group_edges(b.groups@, k), b.types@, h) by {
            let es = group_edges(a.groups@, k);
            assert(b.groups@[k] == a.groups@[k]);
            assert(edges_live(key_view(a.groups@[k]->0.key@), a.types@));
            assert forall|i: int| 0 <= i < es.len() implies
                (type_live(a.types@, (#[trigger] es[i]).0 as int) && a.types@[es[i].0 as int]->0.group.0 == h)
                == (type_live(b.types@, es[i].0 as int) && b.types@[es[i].0 as int]->0.group.0 == h) by {
                assert(type_live(a.types@, es[i].0 as int));
                lemma_owned_count_zero(es, a.types@, g, i);
            }
            lemma_owned_count_same(es, a.types@, b.types@, h);
        }
        lemma_incoming_change(a.groups@, a.types@, b.groups@, b.types@, h, n, g);
        assert(b.groups@[h] == a.groups@[h]);
    }
}

/// Every group with a pending release is live.
pub open spec fn pending_live(r: &TypeRegistry, p: Multiset<int>) -> bool {
    forall|h: int| #[trigger] p.count(h) > 0 ==> group_live(r.groups@, h)
}

/// Interning a key (its references live) keeps the accounting, and the caller holds the
/// registration it took: a new group takes one registration of each group it references per
/// reference, and nothing references it yet.
pub proof fn lemma_intern_pins(a: &TypeRegistry, b: &TypeRegistry, key: Seq<CType>, g: int, p: Multiset<int>)
    requires
        a.wf(),
        b.wf(),
        b.groups@.len() >= a.groups@.len(),
        edges_live(key_view(key), a.types@),
        group_live(b.groups@, g),
        key_view(b.groups@[g]->0.key@) == key_view(key),
        group_live(a.groups@, g) ==> {
            &&& same_but_counts(a, b)
            &&& b.groups@[g]->0.refcount == sat_add(a.groups@[g]->0.refcount, 1)
            &&& forall|h: int| 0 <= h < a.groups@.len() && h != g ==> #[trigger] b.groups@[h] == a.groups@[h]
        },
        !group_live(a.groups@, g) ==> {
            &&& b.groups@[g]->0.refcount == 1
            &&& forall|h: int| #[trigger] group_live(a.groups@, h) ==> {
                &&& group_live(b.groups@, h)
                &&& b.groups@[h]->0.key@ == a.groups@[h]->0.key@
                &&& b.groups@[h]->0.refcount == sat_add(a.groups@[h]->0.refcount, owned_count(key_edges(key_view(key)), a.types@, h))
            }
            &&& forall|h: int| #[trigger] group_live(b.groups@, h) ==> group_live(a.groups@, h) || h == g
        },
        forall|t: int| #[trigger] type_live(a.types@, t) ==> b.types@[t] == a.types@[t],
        pins_hold_with(a, p),
        pending_live(a, p),
    ensures
        pins_hold_with(b, p.insert(g)),
{
    broadcast use vstd::multiset::group_multiset_axioms;
    if group_live(a.groups@, g) {
        assert forall|k: int| #[trigger] group_live(b.groups@, k) implies edges_live(key_view(b.groups@[k]->0.key@), b.types@) by {
            assert(group_live(a.groups@, k));
        }
        assert forall|h: int| #[trigger] group_live(b.groups@, h) implies b.groups@[h]->0.refcount == u32::MAX
            || b.groups@[h]->0.refcount >= incoming(b.groups@, b.types@, h) + p.insert(g).count(h) by {
            assert(group_live(a.groups@, h));
            lemma_same_keys_same_incoming(a, b, h);
            if h != g {
                assert(b.groups@[h] == a.groups@[h]);
            }
        }
    } else {
        let ke = key_edges(key_view(key));
        let n = b.groups@.len() as int;
        // references live in `a` are live in `b`, with the same owner
        assert forall|k: int| #[trigger] group_live(b.groups@, k) implies edges_live(key_view(b.groups@[k]->0.key@), b.types@) by {
            let es = key_edges(key_view(b.groups@[k]->0.key@));
            if k != g {
                assert(group_live(a.groups@, k));
                assert(edges_live(key_view(a.groups@[k]->0.key@), a.types@));
            }
            assert forall|i: int| 0 <= i < es.len() implies type_live(b.types@, (#[trigger] es[i]).0 as int) by {
                assert(type_live(a.types@, es[i].0 as int));
            }
        }
        // in `a`, nothing is owned by the new group
        assert forall|t: int| #[trigger] type_live(a.types@, t) implies a.types@[t]->0.group.0 != g by {}
        if p.count(g) > 0 {
            assert(group_live(a.groups@, g));
        }
        assert forall|h: int| #[trigger] group_live(b.groups@, h) implies b.groups@[h]->0.refcount == u32::MAX
            || b.groups@[h]->0.refcount >= incoming(b.groups@, b.types@, h) + p.insert(g).count(h) by {
            assert forall|k: int| 0 <= k < n && k != g implies #[trigger] group_live(a.groups@, k) == group_live(b.groups@, k) by {
                if group_live(b.groups@, k) {
                    assert(group_live(a.groups@, k));
                }
            }
            assert forall|k: int| 0 <= k < n && k != g && #[trigger] group_live(a.groups@, k) implies
                owned_count(group_edges(a.groups@, k), a.types@, h) == owned_count(group_edges(b.groups@, k), b.types@, h) by {
                let es = group_edges(a.groups@, k);
                assert(edges_live(key_view(a.groups@[k]->0.key@), a.types@));
                assert(group_edges(b.groups@, k) == es);
                assert forall|i: int| 0 <= i < es.len() implies
                    (type_live(a.types@, (#[trigger] es[i]).0 as int) && a.types@[es[i].0 as int]->0.group.0 == h)
                    == (type_live(b.types@, es[i].0 as int) && b.types@[es[i].0 as int]->0.group.0 == h) by {
                    assert(type_live(a.types@, es[i].0 as int));
                }
                lemma_owned_count_same(es, a.types@, b.types@, h);
            }
            lemma_incoming_change(a.groups@, a.types@, b.groups@, b.types@, h, n, g);
            assert forall|i: int| 0 <= i < ke.len() implies
                (type_live(a.types@, (#[trigger] ke[i]).0 as int) && a.types@[ke[i].0 as int]->0.group.0 == h)
                == (type_live(b.types@, ke[i].0 as int) && b.types@[ke[i].0 as int]->0.group.0 == h) by {
                assert(type_live(a.types@, ke[i].0 as int));
            }
            lemma_owned_count_same(ke, a.types@, b.types@, h);
            assert(group_edges(b.groups@, g) == ke);
            if h == g {
                assert forall|k: int| 0 <= k < a.groups@.len() && #[trigger] group_live(a.groups@, k) implies
                    owned_count(group_edges(a.groups@, k), a.types@, g) == 0 by {
                    lemma_owned_count_none(group_edges(a.groups@, k), a.types@, g);
                }
                lemma_incoming_zero(a.groups@, a.types@, g, a.groups@.len() as int);
                assert(incoming_upto(a.groups@, a.types@, g, n) == 0) by {
                    assert forall|k: int| 0 <= k < n && #[trigger] group_live(a.groups@, k) implies
                        owned_count(group_edges(a.groups@, k), a.types@, g) == 0 by {
                        lemma_owned_count_none(group_edges(a.groups@, k), a.types@, g);
                    }
                    lemma_incoming_zero(a.groups@, a.types@, g, n);
                }
                lemma_owned_count_none(ke, a.types@, g);
            } else {
                assert(group_live(a.groups@, h));
                assert(incoming_upto(a.groups@, a.types@, h, n) == incoming(a.groups@, a.types@, h)) by {
                    lemma_incoming_tail(a.groups@, a.types@, h, a.groups@.len() as int, n);
                }
            }
        }
    }
}

/// Slots past the end of the table add nothing.
pub proof fn lemma_incoming_tail(groups: Seq<Option<GroupRecord>>, types: Seq<Option<TypeSlot>>, h: int, m: int, n: int)
    requires
        0 <= m <= n,
        m == groups.len(),
    ensures
        incoming_upto(groups, types, h, n) == incoming_upto(groups, types, h, m),
    decreases n - m,
{
    if n > m {
        lemma_incoming_tail(groups, types, h, m, n - 1);
    }
}

/// Fewer pending releases keep the accounting.
pub proof fn lemma_pins_mono(r: &TypeRegistry, q1: Multiset<int>, q2: Multiset<int>)
    requires
        pins_hold_with(r, q1),
        forall|h: int| #[trigger] q2.count(h) <= q1.count(h),
    ensures
        pins_hold_with(r, q2),
{
    assert forall|h: int| #[trigger] group_live(r.groups@, h) implies r.groups@[h]->0.refcount == u32::MAX
        || r.groups@[h]->0.refcount >= incoming(r.groups@, r.types@, h) + q2.count(h) by {
        assert(q2.count(h) <= q1.count(h));
    }
}

/// Taking one more registration of `g` gives the caller one it holds.
pub proof fn lemma_incref_pins(a: &TypeRegistry, b: &TypeRegistry, g: int)
    requires
        same_but_counts(a, b),
        group_live(a.groups@, g),
        b.groups@[g]->0.refcount == sat_add(a.groups@[g]->0.refcount, 1),
        forall|h: int| 0 <= h < a.groups@.len() && h != g ==> #[trigger] b.groups@[h] == a.groups@[h],
        pins_hold(a),
    ensures
        holds_registration(b, g),
{
    broadcast use vstd::multiset::group_multiset_axioms;
    assert forall|k: int| #[trigger] group_live(b.groups@, k) implies edges_live(key_view(b.groups@[k]->0.key@), b.types@) by {
        assert(group_live(a.groups@, k));
    }
    assert forall|h: int| #[trigger] group_live(b.groups@, h) implies b.groups@[h]->0.refcount == u32::MAX
        || b.groups@[h]->0.refcount >= incoming(b.groups@, b.types@, h) + Multiset::<int>::empty().insert(g).count(h) by {
        assert(group_live(a.groups@, h));
        lemma_same_keys_same_incoming(a, b, h);
        if h != g {
            assert(b.groups@[h] == a.groups@[h]);
        }
    }
}

/// With nothing pending, the accounting holds.
pub proof fn lemma_pins_hold_without_pending(r: &TypeRegistry, p: Multiset<int>)
    requires
        pins_hold_with(r, p),
    ensures
        pins_hold(r),
{
}

/// While the registrations are accounted for, every type a live group's key references is live,
/// and so is the group owning it: a referenced group outlives the groups that reference it.
pub proof fn lemma_referenced_groups_live(r: &TypeRegistry, g: int, i: int)
    requires
        r.wf(),
        pins_hold(r),
        group_live(r.groups@, g),
        0 <= i < group_edges(r.groups@, g).len(),
    ensures
        type_live(r.types@, group_edges(r.groups@, g)[i].0 as int),
        group_live(r.groups@, r.types@[group_edges(r.groups@, g)[i].0 as int]->0.group.0 as int),
{
    let e = group_edges(r.groups@, g)[i];
    assert(edges_live(key_view(r.groups@[g]->0.key@), r.types@));
    assert(type_live(r.types@, e.0 as int));
}

} // verus!
