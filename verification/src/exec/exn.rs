//! Exceptions: `throw` / `throw_ref`, and the unwinder that searches the frames outward for a
//! catch clause whose `try_table` covers the faulting instruction and whose tag matches.
use vstd::prelude::*;
use crate::exec::cell::{Cell, RefTag, cell32};
use crate::exec::op::{HandlerRec, HandlerSpan};
use crate::exec::stack::{Execution, Frame};
use crate::exec::machine::{CodeView, Instance, MachineView, Status, agrees, code_of, machine, set_ip};

verus! {

/// An instance tag: its store-wide identity and how many operands its exceptions carry.
#[derive(Copy, Clone, PartialEq, Eq, Structural, Debug)]
pub struct Tag {
    pub id: u32,
    pub n_params: u32,
}

/// An exception object: the identity of its tag and its arguments (cells with their tags).
#[derive(Clone, Debug)]
pub struct Exn {
    pub tag: u32,
    pub args: Vec<Cell>,
    pub arg_tags: Vec<RefTag>,
}

pub ghost struct ExnView {
    pub tag: u32,
    pub args: Seq<Cell>,
    pub arg_tags: Seq<RefTag>,
}

impl View for Exn {
    type V = ExnView;

    open spec fn view(&self) -> ExnView {
        ExnView { tag: self.tag, args: self.args@, arg_tags: self.arg_tags@ }
    }
}

/// Whether a catch clause catches an exception of tag identity `thrown`.
pub open spec fn clause_matches(rec: HandlerRec, tags: Seq<Tag>, thrown: u32) -> bool {
    match rec.tag {
        None => true,
        Some(i) => i < tags.len() && tags[i as int].id == thrown,
    }
}

/// The first clause from the `k`-th on that catches `thrown`.
pub open spec fn first_clause(clauses: Seq<HandlerRec>, tags: Seq<Tag>, thrown: u32, k: int) -> Option<HandlerRec>
    decreases clauses.len() - k,
{
    if k < 0 || k >= clauses.len() {
        None
    } else if clause_matches(clauses[k], tags, thrown) {
        Some(clauses[k])
    } else {
        first_clause(clauses, tags, thrown, k + 1)
    }
}

/// The clause that catches `thrown` at instruction `ip`: the first matching clause of the first
/// span (from the `s`-th on) whose range holds `ip`.
pub open spec fn spec_find_clause(spans: Seq<HandlerSpan>, ip: u32, tags: Seq<Tag>, thrown: u32, s: int) -> Option<HandlerRec>
    decreases spans.len() - s,
{
    if s < 0 || s >= spans.len() {
        None
    } else {
        let sp = spans[s];
        let here = if sp.start_ip <= ip && ip < sp.end_ip { first_clause(sp.clauses@, tags, thrown, 0) } else { None };
        match here {
            Some(r) => Some(r),
            None => spec_find_clause(spans, ip, tags, thrown, s + 1),
        }
    }
}

/// Whether a clause takes an exception of tag identity `thrown`: a `catch_all` clause takes
/// every exception, a tag clause those thrown with its tag.
pub open spec fn takes(rec: HandlerRec, tags: Seq<Tag>, thrown: u32) -> bool {
    rec.tag is None || (rec.tag->0 < tags.len() && tags[rec.tag->0 as int].id == thrown)
}

proof fn lemma_first_clause(clauses: Seq<HandlerRec>, tags: Seq<Tag>, thrown: u32, k: int)
    requires
        0 <= k,
    ensures
        match first_clause(clauses, tags, thrown, k) {
            Some(r) => exists|j: int| k <= j < clauses.len() && clauses[j] == r && takes(r, tags, thrown)
                && forall|i: int| k <= i < j ==> !takes(#[trigger] clauses[i], tags, thrown),
            None => forall|i: int| k <= i < clauses.len() ==> !takes(#[trigger] clauses[i], tags, thrown),
        },
    decreases clauses.len() - k,
{
    if k < clauses.len() && !clause_matches(clauses[k], tags, thrown) {
        lemma_first_clause(clauses, tags, thrown, k + 1);
        if let Some(r) = first_clause(clauses, tags, thrown, k + 1) {
            let j = choose|j: int| k + 1 <= j < clauses.len() && clauses[j] == r && takes(r, tags, thrown)
                && forall|i: int| k + 1 <= i < j ==> !takes(#[trigger] clauses[i], tags, thrown);
            assert forall|i: int| k <= i < j implies !takes(#[trigger] clauses[i], tags, thrown) by {}
        }
    } else if k < clauses.len() {
        assert(forall|i: int| k <= i < k ==> !takes(#[trigger] clauses[i], tags, thrown));
    }
}

/// The clause an exception raised at `ip` lands in is the first one that takes it, in the order
/// of the spans (innermost first) whose range holds `ip` and, within a span, in source order;
/// when there is none, no clause of any span holding `ip` takes it.
#[verifier::spinoff_prover]
pub proof fn lemma_find_clause_is_first_taker(spans: Seq<HandlerSpan>, ip: u32, tags: Seq<Tag>, thrown: u32, s0: int)
    requires
        0 <= s0,
    ensures
        match spec_find_clause(spans, ip, tags, thrown, s0) {
            Some(r) => exists|s: int, k: int| s0 <= s < spans.len() && 0 <= k < spans[s].clauses@.len()
                && spans[s].start_ip <= ip < spans[s].end_ip && spans[s].clauses@[k] == r && takes(r, tags, thrown)
                && (forall|i: int| 0 <= i < k ==> !takes(#[trigger] spans[s].clauses@[i], tags, thrown))
                && (forall|t: int, i: int| s0 <= t < s && spans[t].start_ip <= ip < spans[t].end_ip && 0 <= i < spans[t].clauses@.len()
                    ==> !takes(#[trigger] spans[t].clauses@[i], tags, thrown)),
            None => forall|t: int, i: int| s0 <= t < spans.len() && spans[t].start_ip <= ip < spans[t].end_ip
                && 0 <= i < spans[t].clauses@.len() ==> !takes(#[trigger] spans[t].clauses@[i], tags, thrown),
        },
    decreases spans.len() - s0,
{
    if s0 < spans.len() {
        let sp = spans[s0];
        let covers = sp.start_ip <= ip && ip < sp.end_ip;
        lemma_first_clause(sp.clauses@, tags, thrown, 0);
        lemma_find_clause_is_first_taker(spans, ip, tags, thrown, s0 + 1);
        if covers && first_clause(sp.clauses@, tags, thrown, 0) is Some {
            let r = first_clause(sp.clauses@, tags, thrown, 0)->0;
            let k = choose|j: int| 0 <= j < sp.clauses@.len() && sp.clauses@[j] == r && takes(r, tags, thrown)
                && forall|i: int| 0 <= i < j ==> !takes(#[trigger] sp.clauses@[i], tags, thrown);
            assert(spans[s0].clauses@[k] == r);
        } else {
            match spec_find_clause(spans, ip, tags, thrown, s0 + 1) {
                Some(r) => {
                    let (s, k) = choose|s: int, k: int| s0 + 1 <= s < spans.len() && 0 <= k < spans[s].clauses@.len()
                        && spans[s].start_ip <= ip < spans[s].end_ip && spans[s].clauses@[k] == r && takes(r, tags, thrown)
                        && (forall|i: int| 0 <= i < k ==> !takes(#[trigger] spans[s].clauses@[i], tags, thrown))
                        && (forall|t: int, i: int| s0 + 1 <= t < s && spans[t].start_ip <= ip < spans[t].end_ip && 0 <= i < spans[t].clauses@.len()
                            ==> !takes(#[trigger] spans[t].clauses@[i], tags, thrown));
                    assert forall|t: int, i: int| s0 <= t < s && spans[t].start_ip <= ip < spans[t].end_ip && 0 <= i < spans[t].clauses@.len()
                        implies !takes(#[trigger] spans[t].clauses@[i], tags, thrown) by {
                        if t == s0 { assert(sp.clauses@[i] == spans[t].clauses@[i]); }
                    }
                },
                None => {
                    assert forall|t: int, i: int| s0 <= t < spans.len() && spans[t].start_ip <= ip < spans[t].end_ip
                        && 0 <= i < spans[t].clauses@.len() implies !takes(#[trigger] spans[t].clauses@[i], tags, thrown) by {
                        if t == s0 { assert(sp.clauses@[i] == spans[t].clauses@[i]); }
                    }
                },
            }
        }
    }
}

/// A vector truncated to `n` elements (unchanged when it is not longer).
pub open spec fn truncated<T>(s: Seq<T>, n: int) -> Seq<T> {
    if n < s.len() { s.take(n) } else { s }
}

/// The operands a catch clause pushes for exception `h`: its arguments, then its `exnref`.
pub open spec fn payload(rec: HandlerRec, e: ExnView, h: u32) -> Seq<Cell> {
    (if rec.payload_args { e.args } else { Seq::empty() }) + (if rec.payload_ref { seq![cell32(h)] } else { Seq::empty() })
}

pub open spec fn payload_tags(rec: HandlerRec, e: ExnView) -> Seq<RefTag> {
    (if rec.payload_args { e.arg_tags } else { Seq::empty() }) + (if rec.payload_ref { seq![RefTag::Exn] } else { Seq::empty() })
}

/// Landing in catch clause `rec` of the top frame of `m` (function `f` in code `c`).
pub open spec fn spec_land(m: MachineView, rec: HandlerRec, floor: int, h: u32) -> (MachineView, Status) {
    let e = m.exns[h as int];
    let height = floor + rec.restore_height;
    let values = truncated(m.values, height) + payload(rec, e, h);
    let shadow = truncated(m.shadow, height) + payload_tags(rec, e);
    if values.len() > u32::MAX {
        (m, Status::Invalid)
    } else {
        (MachineView { values, shadow, frames: set_ip(m.frames, rec.landing_ip), ..m }, Status::Running)
    }
}

/// The reference semantics of unwinding exception `h` raised at instruction `fault_ip` of the
/// top frame: the first frame (from the top) with a clause catching it at its fault site lands
/// there; frames without one are popped with their operands, and a caller's fault site is the
/// call before its return address. With no frame left the exception is uncaught.
pub open spec fn spec_unwind(c: CodeView, m: MachineView, h: u32, fault_ip: u32) -> (MachineView, Status)
    decreases m.frames.len(),
{
    if m.frames.len() == 0 {
        (m, Status::Uncaught(h))
    } else {
        let fr = m.frames.last();
        if fr.func >= c.funcs.len() || h >= m.exns.len() {
            (m, Status::Invalid)
        } else {
            let f = c.funcs[fr.func as int];
            match spec_find_clause(f.handlers@, fault_ip, c.tags, m.exns[h as int].tag, 0) {
                Some(rec) => spec_land(m, rec, fr.locals_base + f.n_params + f.local_types@.len(), h),
                None => {
                    let base = fr.locals_base as int;
                    if base > m.values.len() {
                        (m, Status::Invalid)
                    } else {
                        let m2 = MachineView {
                            values: m.values.take(base),
                            shadow: m.shadow.take(base),
                            frames: m.frames.drop_last(),
                            ..m
                        };
                        if m2.frames.len() == 0 {
                            (m2, Status::Uncaught(h))
                        } else {
                            let ip = m2.frames.last().ip;
                            spec_unwind(c, m2, h, if ip == 0 { 0u32 } else { (ip - 1) as u32 })
                        }
                    }
                },
            }
        }
    }
}

/// Landing in a catch clause keeps the operands below the clause's restore height (the frame's
/// locals and the `try_table`'s entry operands) and pushes the clause's payload on top: with
/// `catch_ref`/`catch_all_ref` the thrown exception's `exnref` is the top operand; with a tag
/// clause the exception's arguments sit, in order, directly below it (or on top without a
/// reference); the frame resumes at the landing pad.
#[verifier::spinoff_prover]
pub proof fn lemma_landing_payload(m: MachineView, rec: HandlerRec, floor: int, h: u32)
    requires
        0 <= floor,
        h < m.exns.len(),
        m.frames.len() > 0,
        m.values.len() == m.shadow.len(),
        m.exns[h as int].args.len() == m.exns[h as int].arg_tags.len(),
        spec_land(m, rec, floor, h).1 is Running,
    ensures
        ({
            let m1 = spec_land(m, rec, floor, h).0;
            let e = m.exns[h as int];
            let kept = if floor + rec.restore_height < m.values.len() { floor + rec.restore_height } else { m.values.len() as int };
            let na = if rec.payload_args { e.args.len() as int } else { 0 };
            let nr = if rec.payload_ref { 1int } else { 0 };
            &&& m1.values.len() == kept + na + nr
            &&& m1.shadow.len() == m1.values.len()
            &&& forall|i: int| 0 <= i < kept ==> m1.values[i] == m.values[i] && m1.shadow[i] == m.shadow[i]
            &&& rec.payload_ref ==> m1.values[m1.values.len() - 1] == cell32(h) && m1.shadow[m1.values.len() - 1] == RefTag::Exn
            &&& rec.payload_args ==> forall|i: int| 0 <= i < e.args.len() ==>
                m1.values[kept + i] == e.args[i] && m1.shadow[kept + i] == e.arg_tags[i]
            &&& m1.frames.len() == m.frames.len()
            &&& m1.frames.last().ip == rec.landing_ip
            &&& m1.exns == m.exns
        }),
{
    let m1 = spec_land(m, rec, floor, h).0;
    let e = m.exns[h as int];
    let height = floor + rec.restore_height;
    let tv = truncated(m.values, height);
    let ts = truncated(m.shadow, height);
    let kept = if height < m.values.len() { height } else { m.values.len() as int };
    assert(m1.values == tv + payload(rec, e, h));
    assert(m1.shadow == ts + payload_tags(rec, e));
    assert(tv.len() == kept && ts.len() == kept);
    assert forall|i: int| 0 <= i < kept implies m1.values[i] == m.values[i] && m1.shadow[i] == m.shadow[i] by {
        assert(tv[i] == m.values[i] && ts[i] == m.shadow[i]);
    }
    let pa = if rec.payload_args { e.args } else { Seq::<Cell>::empty() };
    let pt = if rec.payload_args { e.arg_tags } else { Seq::<RefTag>::empty() };
    assert(payload(rec, e, h) == pa + (if rec.payload_ref { seq![cell32(h)] } else { Seq::empty() }));
    assert(payload_tags(rec, e) == pt + (if rec.payload_ref { seq![RefTag::Exn] } else { Seq::empty() }));
    if rec.payload_args {
        assert forall|i: int| 0 <= i < e.args.len() implies m1.values[kept + i] == e.args[i] && m1.shadow[kept + i] == e.arg_tags[i] by {
            assert(payload(rec, e, h)[i] == e.args[i]);
            assert(payload_tags(rec, e)[i] == e.arg_tags[i]);
        }
    }
}

/// An exception raised where the top frame has a clause catching it lands in that frame, at
/// the clause's landing pad.
pub proof fn lemma_caught_in_place(c: CodeView, m: MachineView, h: u32, fault_ip: u32)
    requires
        m.frames.len() > 0,
        m.frames.last().func < c.funcs.len(),
        h < m.exns.len(),
        spec_find_clause(c.funcs[m.frames.last().func as int].handlers@, fault_ip, c.tags, m.exns[h as int].tag, 0) is Some,
        spec_unwind(c, m, h, fault_ip).1 is Running,
    ensures
        spec_unwind(c, m, h, fault_ip).0.frames.len() == m.frames.len(),
        spec_unwind(c, m, h, fault_ip).0.frames.last().ip
            == spec_find_clause(c.funcs[m.frames.last().func as int].handlers@, fault_ip, c.tags, m.exns[h as int].tag, 0)->0.landing_ip,
{
}

/// An exception that no frame catches unwinds every frame.
pub proof fn lemma_uncaught_unwinds_everything(c: CodeView, m: MachineView, h: u32, fault_ip: u32)
    requires
        spec_unwind(c, m, h, fault_ip).1 is Uncaught,
    ensures
        spec_unwind(c, m, h, fault_ip).0.frames.len() == 0,
    decreases m.frames.len(),
{
    if m.frames.len() > 0 {
        let fr = m.frames.last();
        if fr.func < c.funcs.len() && h < m.exns.len() {
            let f = c.funcs[fr.func as int];
            if spec_find_clause(f.handlers@, fault_ip, c.tags, m.exns[h as int].tag, 0) is None {
                let base = fr.locals_base as int;
                if base <= m.values.len() {
                    let m2 = MachineView { values: m.values.take(base), shadow: m.shadow.take(base), frames: m.frames.drop_last(), ..m };
                    if m2.frames.len() > 0 {
                        let ip = m2.frames.last().ip;
                        lemma_uncaught_unwinds_everything(c, m2, h, if ip == 0 { 0u32 } else { (ip - 1) as u32 });
                    }
                }
            }
        }
    }
}

/// The clause that catches `thrown` at instruction `ip`, if any.
pub fn find_clause(spans: &Vec<HandlerSpan>, ip: u32, tags: &Vec<Tag>, thrown: u32) -> (r: Option<HandlerRec>)
    ensures
        r == spec_find_clause(spans@, ip, tags@, thrown, 0),
{
    for s in 0..spans.len()
        invariant
            spec_find_clause(spans@, ip, tags@, thrown, 0) == spec_find_clause(spans@, ip, tags@, thrown, s as int),
    {
        let sp = &spans[s];
        if sp.start_ip <= ip && ip < sp.end_ip {
            for k in 0..sp.clauses.len()
                invariant
                    0 <= s < spans@.len(),
                    spans@[s as int] == *sp,
                    sp.start_ip <= ip && ip < sp.end_ip,
                    spec_find_clause(spans@, ip, tags@, thrown, 0) == spec_find_clause(spans@, ip, tags@, thrown, s as int),
                    first_clause(sp.clauses@, tags@, thrown, 0) == first_clause(sp.clauses@, tags@, thrown, k as int),
            {
                let rec = sp.clauses[k];
                let hit = match rec.tag {
                    None => true,
                    Some(i) => (i as usize) < tags.len() && tags[i as usize].id == thrown,
                };
                if hit {
                    proof {
                        assert(rec == sp.clauses@[k as int]);
                        assert(clause_matches(sp.clauses@[k as int], tags@, thrown));
                        assert(first_clause(sp.clauses@, tags@, thrown, k as int) == Some(rec));
                        assert(spans@[s as int].clauses@ == sp.clauses@);
                        assert(spec_find_clause(spans@, ip, tags@, thrown, s as int) == Some(rec));
                    }
                    return Some(rec);
                }
            }
            proof { assert(first_clause(sp.clauses@, tags@, thrown, sp.clauses@.len() as int) is None); }
        }
    }
    None
}

impl Execution {
    /// Lands exception `h` in catch clause `rec` of the top frame, whose locals end at `floor`.
    fn land(&mut self, exns: &Vec<Exn>, rec: HandlerRec, floor: u128, h: u32) -> (r: Status)
        requires
            old(self).wf(),
            old(self).frames@.len() > 0,
            floor <= 0x1_0000_0000_0000_0000_0000_0000,
            (h as int) < exns@.len(),
            exns@[h as int].args@.len() == exns@[h as int].arg_tags@.len(),
        ensures
            final(self).wf(),
            ({
                let m = MachineView { values: old(self).values@, shadow: old(self).shadow@, frames: old(self).frames@,
                    globals: Seq::empty(), memory: Seq::empty(), fuel: None, exns: exns@.map_values(|e: Exn| e@),
                    tables: Seq::empty(), elems: Seq::empty(), datas: Seq::empty() };
                let (m1, s) = spec_land(m, rec, floor as int, h);
                &&& r == s
                &&& r is Running ==> final(self).values@ == m1.values && final(self).shadow@ == m1.shadow && final(self).frames@ == m1.frames
            }),
    {
        let e = &exns[h as usize];
        let height = floor + rec.restore_height as u128;
        let kept: u128 = if height < self.values.len() as u128 { height } else { self.values.len() as u128 };
        let extra: u128 = (if rec.payload_args { e.args.len() as u128 } else { 0 }) + (if rec.payload_ref { 1 } else { 0 });
        proof {
            let ev = exns@.map_values(|x: Exn| x@)[h as int];
            assert(ev == e@);
        }
        if kept + extra > 0xffff_ffff {
            return Status::Invalid;
        }
        let ghost v0 = self.values@;
        let ghost s0 = self.shadow@;
        self.values.truncate(kept as usize);
        self.shadow.truncate(kept as usize);
        proof {
            assert(self.values@ =~= truncated(v0, floor + rec.restore_height));
            assert(self.shadow@ =~= truncated(s0, floor + rec.restore_height));
        }
        let ghost v1 = self.values@;
        let ghost s1 = self.shadow@;
        if rec.payload_args {
            for j in 0..e.args.len()
                invariant
                    e.args@.len() == e.arg_tags@.len(),
                    self.values@ == v1 + e.args@.take(j as int),
                    self.shadow@ == s1 + e.arg_tags@.take(j as int),
                    self.frames@ == old(self).frames@,
            {
                self.values.push(e.args[j]);
                self.shadow.push(e.arg_tags[j]);
                proof {
                    assert(e.args@.take(j + 1) =~= e.args@.take(j as int).push(e.args@[j as int]));
                    assert(e.arg_tags@.take(j + 1) =~= e.arg_tags@.take(j as int).push(e.arg_tags@[j as int]));
                }
            }
            proof {
                assert(e.args@.take(e.args@.len() as int) =~= e.args@);
                assert(e.arg_tags@.take(e.arg_tags@.len() as int) =~= e.arg_tags@);
            }
        }
        if rec.payload_ref {
            self.values.push(Cell::from_u32(h));
            self.shadow.push(RefTag::Exn);
        }
        proof {
            let ev = e@;
            assert(self.values@ =~= v1 + payload(rec, ev, h));
            assert(self.shadow@ =~= s1 + payload_tags(rec, ev));
        }
        let last = self.frames.len() - 1;
        let f = self.frames[last];
        self.frames.set(last, Frame { func: f.func, ip: rec.landing_ip, locals_base: f.locals_base });
        Status::Running
    }

    /// Unwinds exception `h` raised at instruction `fault_ip` of the top frame.
    pub fn unwind(&mut self, inst: &Instance, h: u32, fault_ip: u32) -> (r: Status)
        requires
            old(self).wf(),
            inst.wf(),
        ensures
            final(self).wf(),
            agrees(machine(*final(self), *inst), r, spec_unwind(code_of(*inst), machine(*old(self), *inst), h, fault_ip)),
    {
        let ghost c = code_of(*inst);
        let ghost goal = spec_unwind(c, machine(*self, *inst), h, fault_ip);
        let mut ip = fault_ip;
        loop
            invariant
                self.wf(),
                inst.wf(),
                c == code_of(*inst),
                goal == spec_unwind(c, machine(*self, *inst), h, ip),
                goal == spec_unwind(code_of(*inst), machine(*old(self), *inst), h, fault_ip),
            decreases self.frames@.len(),
        {
            let n = self.frames.len();
            if n == 0 {
                return Status::Uncaught(h);
            }
            let fr = self.frames[n - 1];
            if fr.func as usize >= inst.funcs.len() || h as usize >= inst.exns.len() {
                return Status::Invalid;
            }
            let f = &inst.funcs[fr.func as usize];
            match find_clause(&f.handlers, ip, &inst.tags, inst.exns[h as usize].tag) {
                Some(rec) => {
                    let floor = fr.locals_base as u128 + f.n_params as u128 + f.local_types.len() as u128;
                    return self.land(&inst.exns, rec, floor, h);
                },
                None => {
                    let base = fr.locals_base as usize;
                    if base > self.values.len() {
                        return Status::Invalid;
                    }
                    self.values.truncate(base);
                    self.shadow.truncate(base);
                    let _ = self.frames.pop();
                    if self.frames.len() == 0 {
                        return Status::Uncaught(h);
                    }
                    let top = self.frames[self.frames.len() - 1].ip;
                    ip = if top == 0 { 0 } else { top - 1 };
                },
            }
        }
    }

    /// The embedder's function, called at the top frame, threw exception `h`: unwinds it from
    /// the call site.
    pub fn raise_host_exception(&mut self, inst: &Instance, h: u32) -> (r: Status)
        requires
            old(self).wf(),
            inst.wf(),
        ensures
            final(self).wf(),
            old(self).frames@.len() == 0 ==> r == Status::Uncaught(h),
            old(self).frames@.len() > 0 ==> {
                let ip = old(self).frames@.last().ip;
                agrees(machine(*final(self), *inst), r, spec_unwind(code_of(*inst), machine(*old(self), *inst), h,
                    if ip == 0 { 0u32 } else { (ip - 1) as u32 }))
            },
    {
        let n = self.frames.len();
        if n == 0 {
            return Status::Uncaught(h);
        }
        let top = self.frames[n - 1].ip;
        self.unwind(inst, h, if top == 0 { 0 } else { top - 1 })
    }
}

} // verus!
