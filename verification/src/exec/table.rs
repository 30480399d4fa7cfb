//! Tables and the reference instructions: `table.get/set/size/grow/fill/copy/init`,
//! `elem.drop`, and `ref.null/ref.is_null/ref.func`. A table holds references as handles
//! (`None` is null); an element segment is a list of them that `elem.drop` empties.
use vstd::prelude::*;
use crate::canon::layout::RefKind;
use crate::trap::Trap;
use crate::exec::cell::{Cell, RefTag, cell32, low32, NULL_REF, spec_tag_of_refkind};
use crate::exec::op::Op;
use crate::exec::stack::{Execution, Fault, popped_at_most_three, lemma_nothing_popped};
use crate::exec::numeric::pop_k;

verus! {

/// A table: its elements, the hierarchy of its references, and its maximum size.
#[derive(Clone, Debug)]
pub struct Table {
    pub elems: Vec<Option<u32>>,
    pub kind: RefKind,
    pub max: u32,
}

pub ghost struct TableView {
    pub elems: Seq<Option<u32>>,
    pub kind: RefKind,
    pub max: u32,
}

impl View for Table {
    type V = TableView;

    open spec fn view(&self) -> TableView {
        TableView { elems: self.elems@, kind: self.kind, max: self.max }
    }
}

impl Table {
    /// A table never holds more than its maximum.
    pub open spec fn wf(&self) -> bool {
        self.elems@.len() <= self.max
    }
}

impl Table {
    /// Writes an active element segment `items` at index `at`, as instantiation does; a
    /// segment that does not fit traps with `TableOutOfBounds` and writes nothing.
    pub fn init_active(&mut self, at: usize, items: &[Option<u32>]) -> (r: Result<(), Trap>)
        requires
            old(self).wf(),
        ensures
            final(self).wf(),
            final(self).kind == old(self).kind,
            final(self).max == old(self).max,
            r is Ok <==> at + items@.len() <= old(self).elems@.len(),
            r is Ok ==> final(self).elems@ == old(self).elems@.subrange(0, at as int) + items@
                + old(self).elems@.subrange(at + items@.len(), old(self).elems@.len() as int),
            r is Err ==> r == Err::<(), Trap>(Trap::TableOutOfBounds) && final(self).elems@ == old(self).elems@,
    {
        if items.len() > self.elems.len() || at > self.elems.len() - items.len() {
            return Err(Trap::TableOutOfBounds);
        }
        let ghost e0 = self.elems@;
        for i in 0..items.len()
            invariant
                self.elems@.len() == e0.len(),
                e0 == old(self).elems@,
                self.kind == old(self).kind,
                self.max == old(self).max,
                e0.len() <= self.max,
                at + items@.len() <= e0.len(),
                forall|j: int| 0 <= j < e0.len() ==> #[trigger] self.elems@[j] == if at <= j < at + i { items@[j - at] } else { e0[j] },
        {
            self.elems.set(at + i, items[i]);
        }
        proof {
            assert(self.elems@ =~= e0.subrange(0, at as int) + items@ + e0.subrange(at + items@.len(), e0.len() as int));
        }
        Ok(())
    }
}

/// The cell of a reference handle (`None` is the null handle).
pub open spec fn ref_cell(r: Option<u32>) -> Cell {
    cell32(match r { Some(h) => h, None => NULL_REF })
}

/// The reference a cell holds.
pub open spec fn cell_ref(c: Cell) -> Option<u32> {
    if low32(c) == NULL_REF { None } else { Some(low32(c)) }
}

/// What a table or reference instruction does: pop `k` operands, push an optional cell with its
/// tag, and leave the given tables and element segments; or fail.
pub enum TabEffect {
    Done(nat, Option<(Cell, RefTag)>, Seq<TableView>, Seq<Seq<Option<u32>>>),
    Fail(Fault),
}

pub open spec fn with_elems(t: TableView, elems: Seq<Option<u32>>) -> TableView {
    TableView { elems, ..t }
}

/// `n` copies of reference `r`.
pub open spec fn repeated(n: nat, r: Option<u32>) -> Seq<Option<u32>> {
    Seq::new(n, |k: int| r)
}

/// `e` with the `cnt` entries from `at` on set to `v`.
pub open spec fn filled(e: Seq<Option<u32>>, at: int, cnt: int, v: Option<u32>) -> Seq<Option<u32>> {
    Seq::new(e.len(), |k: int| if at <= k < at + cnt { v } else { e[k] })
}

/// `dst` with `n` entries from `at` on replaced by `src`'s entries from `from` on.
pub open spec fn spliced(dst: Seq<Option<u32>>, at: int, src: Seq<Option<u32>>, from: int, n: int) -> Seq<Option<u32>> {
    Seq::new(dst.len(), |k: int| if at <= k < at + n { src[from + (k - at)] } else { dst[k] })
}

/// The reference semantics of the table and reference instructions over operand stack `s`.
pub open spec fn table_effect(op: Op, s: Seq<Cell>, tabs: Seq<TableView>, segs: Seq<Seq<Option<u32>>>) -> TabEffect {
    let n = s.len();
    let oob = TabEffect::Fail(Fault::Trap(Trap::TableOutOfBounds));
    match op {
        Op::RefNull(k) => TabEffect::Done(0, Some((cell32(NULL_REF), spec_tag_of_refkind(k))), tabs, segs),
        Op::RefIsNull => if n < 1 {
            TabEffect::Fail(Fault::Invalid)
        } else {
            TabEffect::Done(1, Some((cell32(if low32(s[n - 1]) == NULL_REF { 1u32 } else { 0u32 }), RefTag::NoRef)), tabs, segs)
        },
        Op::RefFunc(f) => TabEffect::Done(0, Some((cell32(f), RefTag::Func)), tabs, segs),
        Op::TableGet(t) => if t >= tabs.len() || n < 1 {
            TabEffect::Fail(Fault::Invalid)
        } else {
            let i = low32(s[n - 1]);
            if i >= tabs[t as int].elems.len() {
                oob
            } else {
                TabEffect::Done(1, Some((ref_cell(tabs[t as int].elems[i as int]), spec_tag_of_refkind(tabs[t as int].kind))), tabs, segs)
            }
        },
        Op::TableSet(t) => if t >= tabs.len() || n < 2 {
            TabEffect::Fail(Fault::Invalid)
        } else {
            let i = low32(s[n - 2]);
            let tb = tabs[t as int];
            if i >= tb.elems.len() {
                oob
            } else {
                TabEffect::Done(2, None, tabs.update(t as int, with_elems(tb, tb.elems.update(i as int, cell_ref(s[n - 1])))), segs)
            }
        },
        Op::TableSize(t) => if t >= tabs.len() {
            TabEffect::Fail(Fault::Invalid)
        } else {
            TabEffect::Done(0, Some((cell32(tabs[t as int].elems.len() as u32), RefTag::NoRef)), tabs, segs)
        },
        Op::TableGrow(t) => if t >= tabs.len() || n < 2 {
            TabEffect::Fail(Fault::Invalid)
        } else {
            let tb = tabs[t as int];
            let delta = low32(s[n - 1]);
            let init = cell_ref(s[n - 2]);
            if tb.elems.len() + delta > tb.max {
                TabEffect::Done(2, Some((cell32(u32::MAX), RefTag::NoRef)), tabs, segs)
            } else {
                TabEffect::Done(2, Some((cell32(tb.elems.len() as u32), RefTag::NoRef)),
                    tabs.update(t as int, with_elems(tb, tb.elems + repeated(delta as nat, init))), segs)
            }
        },
        Op::TableFill(t) => if t >= tabs.len() || n < 3 {
            TabEffect::Fail(Fault::Invalid)
        } else {
            let tb = tabs[t as int];
            let at = low32(s[n - 3]);
            let v = cell_ref(s[n - 2]);
            let cnt = low32(s[n - 1]);
            if at + cnt > tb.elems.len() {
                oob
            } else {
                TabEffect::Done(3, None, tabs.update(t as int, with_elems(tb, filled(tb.elems, at as int, cnt as int, v))), segs)
            }
        },
        Op::TableCopy(d, r) => if d >= tabs.len() || r >= tabs.len() || n < 3 {
            TabEffect::Fail(Fault::Invalid)
        } else {
            let dst = low32(s[n - 3]);
            let src = low32(s[n - 2]);
            let cnt = low32(s[n - 1]);
            let from = tabs[r as int].elems;
            let tb = tabs[d as int];
            if src + cnt > from.len() || dst + cnt > tb.elems.len() {
                oob
            } else {
                TabEffect::Done(3, None, tabs.update(d as int, with_elems(tb, spliced(tb.elems, dst as int, from, src as int, cnt as int))), segs)
            }
        },
        Op::TableInit(e, t) => if e >= segs.len() || t >= tabs.len() || n < 3 {
            TabEffect::Fail(Fault::Invalid)
        } else {
            let dst = low32(s[n - 3]);
            let src = low32(s[n - 2]);
            let cnt = low32(s[n - 1]);
            let from = segs[e as int];
            let tb = tabs[t as int];
            if src + cnt > from.len() || dst + cnt > tb.elems.len() {
                oob
            } else {
                TabEffect::Done(3, None, tabs.update(t as int, with_elems(tb, spliced(tb.elems, dst as int, from, src as int, cnt as int))), segs)
            }
        },
        Op::ElemDrop(e) => if e >= segs.len() {
            TabEffect::Fail(Fault::Invalid)
        } else {
            TabEffect::Done(0, None, tabs, segs.update(e as int, Seq::empty()))
        },
        _ => TabEffect::Fail(Fault::Invalid),
    }
}

/// `table.get` at an index just written by `table.set` (operands `index value`) gives back the
/// reference written (with the table's root tag); the set changes that entry of that table only.
#[verifier::spinoff_prover]
pub proof fn lemma_table_set_then_get(s: Seq<Cell>, t: u32, i: Cell, v: Cell, tabs: Seq<TableView>, segs: Seq<Seq<Option<u32>>>)
    requires
        t < tabs.len(),
        low32(i) < tabs[t as int].elems.len(),
    ensures
        ({
            let r = table_effect(Op::TableSet(t), s.push(i).push(v), tabs, segs);
            &&& r matches TabEffect::Done(k, push, tabs1, segs1) && k == 2 && push is None && segs1 == segs
                && tabs1.len() == tabs.len()
                && (forall|u: int| 0 <= u < tabs.len() && u != t ==> tabs1[u] == tabs[u])
                && tabs1[t as int].kind == tabs[t as int].kind && tabs1[t as int].max == tabs[t as int].max
                && tabs1[t as int].elems.len() == tabs[t as int].elems.len()
                && (forall|j: int| 0 <= j < tabs[t as int].elems.len() && j != low32(i) ==> tabs1[t as int].elems[j] == tabs[t as int].elems[j])
                && table_effect(Op::TableGet(t), s.push(i), tabs1, segs1)
                    == TabEffect::Done(1, Some((ref_cell(cell_ref(v)), spec_tag_of_refkind(tabs[t as int].kind))), tabs1, segs1)
        }),
{
    let s2 = s.push(i).push(v);
    assert(s2[s2.len() - 2] == i && s2[s2.len() - 1] == v);
    let s1 = s.push(i);
    assert(s1[s1.len() - 1] == i);
}

/// `table.grow` with operands `init delta` appends `delta` copies of `init` and pushes the old
/// size when the table stays within its maximum, and otherwise pushes `-1` and changes nothing;
/// `table.size` pushes the entry count.
#[verifier::spinoff_prover]
pub proof fn lemma_table_grow_size(s: Seq<Cell>, t: u32, init: Cell, delta: Cell, tabs: Seq<TableView>, segs: Seq<Seq<Option<u32>>>)
    requires
        t < tabs.len(),
    ensures
        table_effect(Op::TableSize(t), s, tabs, segs)
            == TabEffect::Done(0, Some((cell32(tabs[t as int].elems.len() as u32), RefTag::NoRef)), tabs, segs),
        ({
            let old = tabs[t as int].elems;
            let d = low32(delta) as int;
            let r = table_effect(Op::TableGrow(t), s.push(init).push(delta), tabs, segs);
            &&& old.len() + d > tabs[t as int].max ==> r == TabEffect::Done(2, Some((cell32(0xffff_ffff), RefTag::NoRef)), tabs, segs)
            &&& old.len() + d <= tabs[t as int].max ==> (r matches TabEffect::Done(k, Some(p), tabs1, segs1) && k == 2
                && p == (cell32(old.len() as u32), RefTag::NoRef) && segs1 == segs
                && tabs1[t as int].elems.len() == old.len() + d
                && (forall|j: int| 0 <= j < old.len() ==> tabs1[t as int].elems[j] == old[j])
                && (forall|j: int| old.len() <= j < old.len() + d ==> tabs1[t as int].elems[j] == cell_ref(init))
                && (forall|u: int| 0 <= u < tabs.len() && u != t ==> tabs1[u] == tabs[u]))
        }),
{
    let s2 = s.push(init).push(delta);
    assert(s2[s2.len() - 2] == init && s2[s2.len() - 1] == delta);
}

/// `table.copy` with operands `dst src len` makes entries `[dst, dst + len)` of the destination
/// the source's old entries `[src, src + len)` (even within one table), leaving the other entries;
/// `table.fill` with operands `at value len` sets `[at, at + len)` to the value; ranges past the
/// end trap.
#[verifier::spinoff_prover]
pub proof fn lemma_table_copy_fill(s: Seq<Cell>, d: u32, r: u32, a: Cell, b: Cell, c: Cell, tabs: Seq<TableView>, segs: Seq<Seq<Option<u32>>>)
    requires
        d < tabs.len(),
        r < tabs.len(),
    ensures
        ({
            let st = s.push(a).push(b).push(c);
            let dst = low32(a) as int;
            let src = low32(b) as int;
            let n = low32(c) as int;
            let to = tabs[d as int].elems;
            let from = tabs[r as int].elems;
            let cp = table_effect(Op::TableCopy(d, r), st, tabs, segs);
            let fl = table_effect(Op::TableFill(d), st, tabs, segs);
            &&& (src + n > from.len() || dst + n > to.len()) ==> cp == TabEffect::Fail(Fault::Trap(Trap::TableOutOfBounds))
            &&& (src + n <= from.len() && dst + n <= to.len()) ==> (cp matches TabEffect::Done(k, None, tabs1, _) && k == 3
                && tabs1[d as int].elems.len() == to.len()
                && (forall|j: int| dst <= j < dst + n ==> #[trigger] tabs1[d as int].elems[j] == from[src + (j - dst)])
                && (forall|j: int| 0 <= j < to.len() && !(dst <= j < dst + n) ==> #[trigger] tabs1[d as int].elems[j] == to[j]))
            &&& dst + n > to.len() ==> fl == TabEffect::Fail(Fault::Trap(Trap::TableOutOfBounds))
            &&& dst + n <= to.len() ==> (fl matches TabEffect::Done(k, None, tabs1, _) && k == 3
                && tabs1[d as int].elems.len() == to.len()
                && (forall|j: int| dst <= j < dst + n ==> #[trigger] tabs1[d as int].elems[j] == cell_ref(b))
                && (forall|j: int| 0 <= j < to.len() && !(dst <= j < dst + n) ==> #[trigger] tabs1[d as int].elems[j] == to[j]))
        }),
{
    let st = s.push(a).push(b).push(c);
    assert(st[st.len() - 3] == a && st[st.len() - 2] == b && st[st.len() - 1] == c);
}

/// `ref.is_null` pushes 1 exactly for the null reference; `ref.null` pushes null and `ref.func`
/// the function's handle.
#[verifier::spinoff_prover]
pub proof fn lemma_ref_null(s: Seq<Cell>, x: Cell, f: u32, tabs: Seq<TableView>, segs: Seq<Seq<Option<u32>>>)
    ensures
        table_effect(Op::RefIsNull, s.push(x), tabs, segs)
            == TabEffect::Done(1, Some((cell32(if cell_ref(x) is None { 1u32 } else { 0u32 }), RefTag::NoRef)), tabs, segs),
        table_effect(Op::RefFunc(f), s, tabs, segs) matches TabEffect::Done(k0, Some((v, tg)), _, _) && k0 == 0 && v == cell32(f) && tg == RefTag::Func,
        forall|k: RefKind| #[trigger] table_effect(Op::RefNull(k), s, tabs, segs) matches TabEffect::Done(k0, Some((v, _)), _, _) && k0 == 0 && cell_ref(v) is None,
{
    let s1 = s.push(x);
    assert(s1[s1.len() - 1] == x);
}

/// The table and reference instructions.
pub open spec fn is_table_op(op: Op) -> bool {
    matches!(op, Op::RefNull(_) | Op::RefIsNull | Op::RefFunc(_) | Op::TableGet(_) | Op::TableSet(_) | Op::TableSize(_)
        | Op::TableGrow(_) | Op::TableFill(_) | Op::TableCopy(_, _) | Op::TableInit(_, _) | Op::ElemDrop(_))
}

pub fn table_op(op: &Op) -> (b: bool)
    ensures
        b == is_table_op(*op),
{
    matches!(op, Op::RefNull(_) | Op::RefIsNull | Op::RefFunc(_) | Op::TableGet(_) | Op::TableSet(_) | Op::TableSize(_)
        | Op::TableGrow(_) | Op::TableFill(_) | Op::TableCopy(_, _) | Op::TableInit(_, _) | Op::ElemDrop(_))
}

pub open spec fn tables_view(tables: Seq<Table>) -> Seq<TableView> {
    tables.map_values(|t: Table| t@)
}

pub open spec fn segs_view(segs: Seq<Vec<Option<u32>>>) -> Seq<Seq<Option<u32>>> {
    segs.map_values(|v: Vec<Option<u32>>| v@)
}

pub open spec fn tables_wf(tables: Seq<Table>) -> bool {
    forall|i: int| 0 <= i < tables.len() ==> (#[trigger] tables[i]).wf()
}

fn ref_of_cell(c: Cell) -> (r: Option<u32>)
    ensures
        r == cell_ref(c),
{
    let h = c.low32();
    if h == NULL_REF { None } else { Some(h) }
}

fn cell_of_ref(r: Option<u32>) -> (c: Cell)
    ensures
        c == ref_cell(r),
{
    match r {
        Some(h) => Cell::from_u32(h),
        None => Cell::from_u32(NULL_REF),
    }
}

/// Takes table `t` out of `tables`, leaving an empty one of the same kind in its place.
fn take_table(tables: &mut Vec<Table>, t: usize) -> (tb: Table)
    requires
        t < old(tables)@.len(),
    ensures
        tb == old(tables)@[t as int],
        final(tables)@.len() == old(tables)@.len(),
        forall|i: int| 0 <= i < old(tables)@.len() && i != t ==> #[trigger] final(tables)@[i] == old(tables)@[i],
{
    let mut tb = Table { elems: Vec::new(), kind: tables[t].kind, max: tables[t].max };
    std::mem::swap(&mut tb, &mut tables[t]);
    tb
}

/// `dst` with `n` entries from `at` on replaced by `src`'s from `from` on (read before writing).
fn splice(dst: &mut Vec<Option<u32>>, at: usize, src: &Vec<Option<u32>>, from: usize, n: usize)
    requires
        at + n <= old(dst)@.len(),
        from + n <= src@.len(),
    ensures
        final(dst)@ == spliced(old(dst)@, at as int, src@, from as int, n as int),
{
    let len = dst.len();
    let slen = src.len();
    for k in 0..n
        invariant
            len == dst@.len(),
            slen == src@.len(),
            at + n <= dst@.len(),
            from + n <= src@.len(),
            dst@.len() == old(dst)@.len(),
            forall|q: int| 0 <= q < dst@.len() ==> #[trigger] dst@[q] == (if at <= q < at + k { src@[from + (q - at)] } else { old(dst)@[q] }),
    {
        dst.set(at + k, src[from + k]);
    }
    proof { assert(dst@ =~= spliced(old(dst)@, at as int, src@, from as int, n as int)); }
}

impl Execution {
    fn finish_table(&mut self, k: usize, push: Option<(Cell, RefTag)>)
        requires
            old(self).wf(),
            k <= old(self).values@.len(),
            push is Some ==> old(self).values@.len() - k < u32::MAX,
        ensures
            final(self).wf(),
            final(self).frames@ == old(self).frames@,
            final(self).values@ == match push { Some(p) => pop_k(old(self).values@, k as nat).push(p.0), None => pop_k(old(self).values@, k as nat) },
            final(self).shadow@ == match push { Some(p) => pop_k(old(self).shadow@, k as nat).push(p.1), None => pop_k(old(self).shadow@, k as nat) },
    {
        let len = self.values.len();
        self.values.truncate(len - k);
        self.shadow.truncate(len - k);
        proof {
            assert(self.values@ =~= pop_k(old(self).values@, k as nat));
            assert(self.shadow@ =~= pop_k(old(self).shadow@, k as nat));
        }
        match push {
            Some((c, g)) => {
                self.values.push(c);
                self.shadow.push(g);
            },
            None => {},
        }
    }

    #[verifier::rlimit(80)]
    fn exec_ref(&mut self, op: &Op, tables: &mut Vec<Table>, segs: &mut Vec<Vec<Option<u32>>>) -> (r: Result<(), Fault>)
        requires
            old(self).wf(),
            matches!(*op, Op::RefNull(_) | Op::RefIsNull | Op::RefFunc(_)),
            tables_wf(old(tables)@),
        ensures
            final(self).wf(),
            tables_wf(final(tables)@),
            final(self).frames@ == old(self).frames@,
            match table_effect(*op, old(self).values@, tables_view(old(tables)@), segs_view(old(segs)@)) {
                TabEffect::Done(k, push, tabs, ss) => if push is Some && old(self).values@.len() - k >= u32::MAX {
                    r == Err::<(), Fault>(Fault::Invalid)
                } else {
                    &&& r is Ok
                    &&& final(self).values@ == match push { Some(p) => pop_k(old(self).values@, k).push(p.0), None => pop_k(old(self).values@, k) }
                    &&& final(self).shadow@ == match push { Some(p) => pop_k(old(self).shadow@, k).push(p.1), None => pop_k(old(self).shadow@, k) }
                    &&& tables_view(final(tables)@) == tabs
                    &&& segs_view(final(segs)@) == ss
                },
                TabEffect::Fail(e) => r == Err::<(), Fault>(e) && (e is Trap ==> tables_view(final(tables)@) == tables_view(old(tables)@)
                    && segs_view(final(segs)@) == segs_view(old(segs)@)
                    && popped_at_most_three(final(self).values@, final(self).shadow@, old(self).values@, old(self).shadow@)),
            },
    {
        proof { lemma_nothing_popped(self.values@, self.shadow@); }
        let n = self.values.len();
        let ghost tv = tables_view(tables@);
        let ghost sv = segs_view(segs@);
        match op {
            Op::RefNull(k) => {
                if n >= 0xffff_ffff { return Err(Fault::Invalid); }
                self.finish_table(0, Some((Cell::from_u32(NULL_REF), RefTag::of_refkind(*k))));
                Ok(())
            },
            Op::RefIsNull => {
                if n < 1 { return Err(Fault::Invalid); }
                let b: u32 = if self.values[n - 1].low32() == NULL_REF { 1 } else { 0 };
                self.finish_table(1, Some((Cell::from_u32(b), RefTag::NoRef)));
                Ok(())
            },
            Op::RefFunc(f) => {
                if n >= 0xffff_ffff { return Err(Fault::Invalid); }
                self.finish_table(0, Some((Cell::from_u32(*f), RefTag::Func)));
                Ok(())
            },
            _ => Err(Fault::Invalid),
        }
    }

    #[verifier::rlimit(80)]
    fn exec_table_access(&mut self, op: &Op, tables: &mut Vec<Table>, segs: &mut Vec<Vec<Option<u32>>>) -> (r: Result<(), Fault>)
        requires
            old(self).wf(),
            matches!(*op, Op::TableGet(_) | Op::TableSet(_) | Op::TableSize(_)),
            tables_wf(old(tables)@),
        ensures
            final(self).wf(),
            tables_wf(final(tables)@),
            final(self).frames@ == old(self).frames@,
            match table_effect(*op, old(self).values@, tables_view(old(tables)@), segs_view(old(segs)@)) {
                TabEffect::Done(k, push, tabs, ss) => if push is Some && old(self).values@.len() - k >= u32::MAX {
                    r == Err::<(), Fault>(Fault::Invalid)
                } else {
                    &&& r is Ok
                    &&& final(self).values@ == match push { Some(p) => pop_k(old(self).values@, k).push(p.0), None => pop_k(old(self).values@, k) }
                    &&& final(self).shadow@ == match push { Some(p) => pop_k(old(self).shadow@, k).push(p.1), None => pop_k(old(self).shadow@, k) }
                    &&& tables_view(final(tables)@) == tabs
                    &&& segs_view(final(segs)@) == ss
                },
                TabEffect::Fail(e) => r == Err::<(), Fault>(e) && (e is Trap ==> tables_view(final(tables)@) == tables_view(old(tables)@)
                    && segs_view(final(segs)@) == segs_view(old(segs)@)
                    && popped_at_most_three(final(self).values@, final(self).shadow@, old(self).values@, old(self).shadow@)),
            },
    {
        proof { lemma_nothing_popped(self.values@, self.shadow@); }
        let n = self.values.len();
        let ghost tv = tables_view(tables@);
        let ghost sv = segs_view(segs@);
        match op {
            Op::TableGet(t) => {
                let t = *t as usize;
                if t >= tables.len() || n < 1 { return Err(Fault::Invalid); }
                let i = self.values[n - 1].low32() as usize;
                if i >= tables[t].elems.len() { return Err(Fault::Trap(Trap::TableOutOfBounds)); }
                proof { assert(tv[t as int] == tables@[t as int]@); }
                let c = cell_of_ref(tables[t].elems[i]);
                let g = RefTag::of_refkind(tables[t].kind);
                self.finish_table(1, Some((c, g)));
                Ok(())
            },
            Op::TableSet(t) => {
                let t = *t as usize;
                if t >= tables.len() || n < 2 { return Err(Fault::Invalid); }
                let i = self.values[n - 2].low32() as usize;
                if i >= tables[t].elems.len() { return Err(Fault::Trap(Trap::TableOutOfBounds)); }
                let v = ref_of_cell(self.values[n - 1]);
                let ghost t0 = tables@;
                let mut tb = take_table(tables, t);
                tb.elems.set(i, v);
                tables.set(t, tb);
                proof {
                    assert(tables_view(tables@) =~= tv.update(t as int, with_elems(tv[t as int], tv[t as int].elems.update(i as int, v))));
                    assert forall|q: int| 0 <= q < tables@.len() implies (#[trigger] tables@[q]).wf() by {
                        if q != t { assert(tables@[q] == t0[q]); }
                    }
                }
                self.finish_table(2, None);
                Ok(())
            },
            Op::TableSize(t) => {
                let t = *t as usize;
                if t >= tables.len() { return Err(Fault::Invalid); }
                if n >= 0xffff_ffff { return Err(Fault::Invalid); }
                proof { assert(tables@[t as int].wf()); }
                let size = tables[t].elems.len() as u32;
                self.finish_table(0, Some((Cell::from_u32(size), RefTag::NoRef)));
                Ok(())
            },
            _ => Err(Fault::Invalid),
        }
    }

    #[verifier::rlimit(80)]
    fn exec_table_grow_fill(&mut self, op: &Op, tables: &mut Vec<Table>, segs: &mut Vec<Vec<Option<u32>>>) -> (r: Result<(), Fault>)
        requires
            old(self).wf(),
            matches!(*op, Op::TableGrow(_) | Op::TableFill(_)),
            tables_wf(old(tables)@),
        ensures
            final(self).wf(),
            tables_wf(final(tables)@),
            final(self).frames@ == old(self).frames@,
            match table_effect(*op, old(self).values@, tables_view(old(tables)@), segs_view(old(segs)@)) {
                TabEffect::Done(k, push, tabs, ss) => if push is Some && old(self).values@.len() - k >= u32::MAX {
                    r == Err::<(), Fault>(Fault::Invalid)
                } else {
                    &&& r is Ok
                    &&& final(self).values@ == match push { Some(p) => pop_k(old(self).values@, k).push(p.0), None => pop_k(old(self).values@, k) }
                    &&& final(self).shadow@ == match push { Some(p) => pop_k(old(self).shadow@, k).push(p.1), None => pop_k(old(self).shadow@, k) }
                    &&& tables_view(final(tables)@) == tabs
                    &&& segs_view(final(segs)@) == ss
                },
                TabEffect::Fail(e) => r == Err::<(), Fault>(e) && (e is Trap ==> tables_view(final(tables)@) == tables_view(old(tables)@)
                    && segs_view(final(segs)@) == segs_view(old(segs)@)
                    && popped_at_most_three(final(self).values@, final(self).shadow@, old(self).values@, old(self).shadow@)),
            },
    {
        proof { lemma_nothing_popped(self.values@, self.shadow@); }
        let n = self.values.len();
        let ghost tv = tables_view(tables@);
        let ghost sv = segs_view(segs@);
        match op {
            Op::TableGrow(t) => {
                let t = *t as usize;
                if t >= tables.len() || n < 2 { return Err(Fault::Invalid); }
                let delta = self.values[n - 1].low32();
                let init = ref_of_cell(self.values[n - 2]);
                let old_len = tables[t].elems.len();
                proof { assert(tables@[t as int].wf()); }
                if old_len as u64 + delta as u64 > tables[t].max as u64 {
                    self.finish_table(2, Some((Cell::from_u32(0xffff_ffff), RefTag::NoRef)));
                    return Ok(());
                }
                let ghost t0 = tables@;
                let mut tb = take_table(tables, t);
                let ghost e0 = tb.elems@;
                for k in 0..delta
                    invariant
                        tb.elems@ == e0 + repeated(k as nat, init),
                        tb.kind == t0[t as int].kind,
                        tb.max == t0[t as int].max,
                {
                    tb.elems.push(init);
                    proof { assert(tb.elems@ =~= e0 + repeated((k + 1) as nat, init)); }
                }
                tables.set(t, tb);
                proof {
                    assert(t0[t as int].wf());
                    assert(tables_view(tables@) =~= tv.update(t as int, with_elems(tv[t as int], tv[t as int].elems + repeated(delta as nat, init))));
                    assert forall|q: int| 0 <= q < tables@.len() implies (#[trigger] tables@[q]).wf() by {
                        if q != t { assert(tables@[q] == t0[q]); }
                    }
                }
                self.finish_table(2, Some((Cell::from_u32(old_len as u32), RefTag::NoRef)));
                Ok(())
            },
            Op::TableFill(t) => {
                let t = *t as usize;
                if t >= tables.len() || n < 3 { return Err(Fault::Invalid); }
                let at = self.values[n - 3].low32() as usize;
                let v = ref_of_cell(self.values[n - 2]);
                let cnt = self.values[n - 1].low32() as usize;
                if at as u64 + cnt as u64 > tables[t].elems.len() as u64 { return Err(Fault::Trap(Trap::TableOutOfBounds)); }
                let ghost t0 = tables@;
                let mut tb = take_table(tables, t);
                let ghost e0 = tb.elems@;
                let tl = tb.elems.len();
                for k in 0..cnt
                    invariant
                        tl == e0.len(),
                        tb.kind == t0[t as int].kind,
                        tb.max == t0[t as int].max,
                        at + cnt <= e0.len(),
                        tb.elems@.len() == e0.len(),
                        forall|q: int| 0 <= q < e0.len() ==> #[trigger] tb.elems@[q] == (if at <= q < at + k { v } else { e0[q] }),
                {
                    tb.elems.set(at + k, v);
                }
                proof {
                    assert(tb.elems@ =~= filled(e0, at as int, cnt as int, v));
                }
                tables.set(t, tb);
                proof {
                    assert(t0[t as int].wf());
                    assert(tables_view(tables@) =~= tv.update(t as int, with_elems(tv[t as int], filled(e0, at as int, cnt as int, v))));
                    assert forall|q: int| 0 <= q < tables@.len() implies (#[trigger] tables@[q]).wf() by {
                        if q != t { assert(tables@[q] == t0[q]); }
                    }
                }
                self.finish_table(3, None);
                Ok(())
            },
            _ => Err(Fault::Invalid),
        }
    }

    #[verifier::rlimit(80)]
    fn exec_table_copy(&mut self, op: &Op, tables: &mut Vec<Table>, segs: &mut Vec<Vec<Option<u32>>>) -> (r: Result<(), Fault>)
        requires
            old(self).wf(),
            matches!(*op, Op::TableCopy(_, _) | Op::TableInit(_, _) | Op::ElemDrop(_)),
            tables_wf(old(tables)@),
        ensures
            final(self).wf(),
            tables_wf(final(tables)@),
            final(self).frames@ == old(self).frames@,
            match table_effect(*op, old(self).values@, tables_view(old(tables)@), segs_view(old(segs)@)) {
                TabEffect::Done(k, push, tabs, ss) => if push is Some && old(self).values@.len() - k >= u32::MAX {
                    r == Err::<(), Fault>(Fault::Invalid)
                } else {
                    &&& r is Ok
                    &&& final(self).values@ == match push { Some(p) => pop_k(old(self).values@, k).push(p.0), None => pop_k(old(self).values@, k) }
                    &&& final(self).shadow@ == match push { Some(p) => pop_k(old(self).shadow@, k).push(p.1), None => pop_k(old(self).shadow@, k) }
                    &&& tables_view(final(tables)@) == tabs
                    &&& segs_view(final(segs)@) == ss
                },
                TabEffect::Fail(e) => r == Err::<(), Fault>(e) && (e is Trap ==> tables_view(final(tables)@) == tables_view(old(tables)@)
                    && segs_view(final(segs)@) == segs_view(old(segs)@)
                    && popped_at_most_three(final(self).values@, final(self).shadow@, old(self).values@, old(self).shadow@)),
            },
    {
        proof { lemma_nothing_popped(self.values@, self.shadow@); }
        let n = self.values.len();
        let ghost tv = tables_view(tables@);
        let ghost sv = segs_view(segs@);
        match op {
            Op::TableCopy(d, r) => {
                let d = *d as usize;
                let r = *r as usize;
                if d >= tables.len() || r >= tables.len() || n < 3 { return Err(Fault::Invalid); }
                let dst = self.values[n - 3].low32() as usize;
                let src = self.values[n - 2].low32() as usize;
                let cnt = self.values[n - 1].low32() as usize;
                if src as u64 + cnt as u64 > tables[r].elems.len() as u64 || dst as u64 + cnt as u64 > tables[d].elems.len() as u64 {
                    return Err(Fault::Trap(Trap::TableOutOfBounds));
                }
                let from = tables[r].elems.clone();
                proof { assert(from@ == tables@[r as int].elems@); }
                let ghost t0 = tables@;
                let mut tb = take_table(tables, d);
                splice(&mut tb.elems, dst, &from, src, cnt);
                tables.set(d, tb);
                proof {
                    assert(tables_view(tables@) =~= tv.update(d as int, with_elems(tv[d as int],
                        spliced(tv[d as int].elems, dst as int, tv[r as int].elems, src as int, cnt as int))));
                    assert forall|q: int| 0 <= q < tables@.len() implies (#[trigger] tables@[q]).wf() by {
                        if q != d { assert(tables@[q] == t0[q]); }
                    }
                }
                self.finish_table(3, None);
                Ok(())
            },
            Op::TableInit(e, t) => {
                let e = *e as usize;
                let t = *t as usize;
                if e >= segs.len() || t >= tables.len() || n < 3 { return Err(Fault::Invalid); }
                let dst = self.values[n - 3].low32() as usize;
                let src = self.values[n - 2].low32() as usize;
                let cnt = self.values[n - 1].low32() as usize;
                if src as u64 + cnt as u64 > segs[e].len() as u64 || dst as u64 + cnt as u64 > tables[t].elems.len() as u64 {
                    return Err(Fault::Trap(Trap::TableOutOfBounds));
                }
                proof { assert(sv[e as int] == segs@[e as int]@); }
                let ghost t0 = tables@;
                let mut tb = take_table(tables, t);
                splice(&mut tb.elems, dst, &segs[e], src, cnt);
                tables.set(t, tb);
                proof {
                    assert(tables_view(tables@) =~= tv.update(t as int, with_elems(tv[t as int],
                        spliced(tv[t as int].elems, dst as int, sv[e as int], src as int, cnt as int))));
                    assert forall|q: int| 0 <= q < tables@.len() implies (#[trigger] tables@[q]).wf() by {
                        if q != t { assert(tables@[q] == t0[q]); }
                    }
                }
                self.finish_table(3, None);
                Ok(())
            },
            Op::ElemDrop(e) => {
                let e = *e as usize;
                if e >= segs.len() { return Err(Fault::Invalid); }
                segs.set(e, Vec::new());
                proof { assert(segs_view(segs@) =~= sv.update(e as int, Seq::empty())); }
                Ok(())
            },
            _ => Err(Fault::Invalid),
        }
    }

    /// Executes a table or reference instruction. A trapping instruction changes no table or
    /// segment and leaves the operand stack as it found it.
    pub fn exec_table(&mut self, op: &Op, tables: &mut Vec<Table>, segs: &mut Vec<Vec<Option<u32>>>) -> (r: Result<(), Fault>)
        requires
            old(self).wf(),
            tables_wf(old(tables)@),
        ensures
            final(self).wf(),
            tables_wf(final(tables)@),
            final(self).frames@ == old(self).frames@,
            match table_effect(*op, old(self).values@, tables_view(old(tables)@), segs_view(old(segs)@)) {
                TabEffect::Done(k, push, tabs, ss) => if push is Some && old(self).values@.len() - k >= u32::MAX {
                    r == Err::<(), Fault>(Fault::Invalid)
                } else {
                    &&& r is Ok
                    &&& final(self).values@ == match push { Some(p) => pop_k(old(self).values@, k).push(p.0), None => pop_k(old(self).values@, k) }
                    &&& final(self).shadow@ == match push { Some(p) => pop_k(old(self).shadow@, k).push(p.1), None => pop_k(old(self).shadow@, k) }
                    &&& tables_view(final(tables)@) == tabs
                    &&& segs_view(final(segs)@) == ss
                },
                TabEffect::Fail(e) => r == Err::<(), Fault>(e) && (e is Trap ==> tables_view(final(tables)@) == tables_view(old(tables)@)
                    && segs_view(final(segs)@) == segs_view(old(segs)@)
                    && final(self).values@ == old(self).values@ && final(self).shadow@ == old(self).shadow@),
            },
    {
        let n = self.values.len();
        let top = self.top_three();
        let ghost ov = self.values@;
        let ghost ot = self.shadow@;
        let r = self.table_popping(op, tables, segs);
        match r {
            Err(Fault::Trap(t)) => {
                self.restore_top(top, n, Ghost(ov), Ghost(ot));
                Err(Fault::Trap(t))
            },
            _ => r,
        }
    }

    /// [`Execution::exec_table`], except that a trapping instruction leaves its operands popped.
    fn table_popping(&mut self, op: &Op, tables: &mut Vec<Table>, segs: &mut Vec<Vec<Option<u32>>>) -> (r: Result<(), Fault>)
        requires
            old(self).wf(),
            tables_wf(old(tables)@),
        ensures
            final(self).wf(),
            tables_wf(final(tables)@),
            final(self).frames@ == old(self).frames@,
            match table_effect(*op, old(self).values@, tables_view(old(tables)@), segs_view(old(segs)@)) {
                TabEffect::Done(k, push, tabs, ss) => if push is Some && old(self).values@.len() - k >= u32::MAX {
                    r == Err::<(), Fault>(Fault::Invalid)
                } else {
                    &&& r is Ok
                    &&& final(self).values@ == match push { Some(p) => pop_k(old(self).values@, k).push(p.0), None => pop_k(old(self).values@, k) }
                    &&& final(self).shadow@ == match push { Some(p) => pop_k(old(self).shadow@, k).push(p.1), None => pop_k(old(self).shadow@, k) }
                    &&& tables_view(final(tables)@) == tabs
                    &&& segs_view(final(segs)@) == ss
                },
                TabEffect::Fail(e) => r == Err::<(), Fault>(e) && (e is Trap ==> tables_view(final(tables)@) == tables_view(old(tables)@)
                    && segs_view(final(segs)@) == segs_view(old(segs)@)
                    && popped_at_most_three(final(self).values@, final(self).shadow@, old(self).values@, old(self).shadow@)),
            },
    {
        match op {
            Op::RefNull(_) | Op::RefIsNull | Op::RefFunc(_) => self.exec_ref(op, tables, segs),
            Op::TableGet(_) | Op::TableSet(_) | Op::TableSize(_) => self.exec_table_access(op, tables, segs),
            Op::TableGrow(_) | Op::TableFill(_) => self.exec_table_grow_fill(op, tables, segs),
            Op::TableCopy(_, _) | Op::TableInit(_, _) | Op::ElemDrop(_) => self.exec_table_copy(op, tables, segs),
            _ => Err(Fault::Invalid),
        }
    }
}

} // verus!
