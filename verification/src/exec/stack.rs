//! The transient execution state of one top-level call (operand cells with their root-tag
//! shadow, and the frame stack), and the typed pushes and pops over the untyped cells.
use vstd::prelude::*;
use crate::exec::cell::{Cell, RefTag};
use crate::trap::Trap;

verus! {

/// Why a step could not complete: a wasm trap, or code the interpreter cannot run (an operand
/// or index the compiled code does not provide).
#[derive(Copy, Clone, PartialEq, Eq, Structural, Debug)]
pub enum Fault {
    Trap(Trap),
    Invalid,
}

/// One activation: the function, the next instruction, and where its locals start on the
/// operand stack.
#[derive(Copy, Clone, PartialEq, Eq, Structural, Debug)]
pub struct Frame {
    pub func: u32,
    pub ip: u32,
    pub locals_base: u32,
}

/// The operand stack (cells plus one root tag per cell) and the frame stack.
#[derive(Clone, Debug)]
pub struct Execution {
    pub values: Vec<Cell>,
    pub shadow: Vec<RefTag>,
    pub frames: Vec<Frame>,
}

impl Execution {
    /// The cells and their tags move in lockstep.
    pub open spec fn wf(&self) -> bool {
        &&& self.values@.len() == self.shadow@.len()
        &&& self.values@.len() <= u32::MAX
        &&& self.frames@.len() <= u32::MAX
    }

    /// An empty execution.
    pub fn new() -> (e: Execution)
        ensures
            e.wf(),
            e.values@.len() == 0,
            e.frames@.len() == 0,
    {
        Execution { values: Vec::new(), shadow: Vec::new(), frames: Vec::new() }
    }

    /// Pushes a scalar cell (tagged as a non-reference).
    pub fn push_scalar(&mut self, c: Cell) -> (r: Result<(), Fault>)
        requires
            old(self).wf(),
        ensures
            final(self).wf(),
            old(self).values@.len() < u32::MAX ==> r is Ok && final(self).values@ == old(self).values@.push(c)
                && final(self).shadow@ == old(self).shadow@.push(RefTag::NoRef) && final(self).frames@ == old(self).frames@,
            old(self).values@.len() >= u32::MAX ==> r == Err::<(), Fault>(Fault::Invalid) && *final(self) == *old(self),
    {
        if self.values.len() >= 0xffff_ffff {
            return Err(Fault::Invalid);
        }
        self.values.push(c);
        self.shadow.push(RefTag::NoRef);
        Ok(())
    }

    /// Pushes a cell with its root tag.
    pub fn push_cell(&mut self, c: Cell, tag: RefTag) -> (r: Result<(), Fault>)
        requires
            old(self).wf(),
        ensures
            final(self).wf(),
            old(self).values@.len() < u32::MAX ==> r is Ok && final(self).values@ == old(self).values@.push(c)
                && final(self).shadow@ == old(self).shadow@.push(tag) && final(self).frames@ == old(self).frames@,
            old(self).values@.len() >= u32::MAX ==> r == Err::<(), Fault>(Fault::Invalid) && *final(self) == *old(self),
    {
        if self.values.len() >= 0xffff_ffff {
            return Err(Fault::Invalid);
        }
        self.values.push(c);
        self.shadow.push(tag);
        Ok(())
    }

    /// Pops the top cell with its tag.
    pub fn pop_tagged(&mut self) -> (r: Result<(Cell, RefTag), Fault>)
        requires
            old(self).wf(),
        ensures
            final(self).wf(),
            final(self).frames@ == old(self).frames@,
            old(self).values@.len() == 0 ==> r == Err::<(Cell, RefTag), Fault>(Fault::Invalid) && *final(self) == *old(self),
            old(self).values@.len() > 0 ==> r == Ok::<(Cell, RefTag), Fault>((old(self).values@.last(), old(self).shadow@.last()))
                && final(self).values@ == old(self).values@.drop_last()
                && final(self).shadow@ == old(self).shadow@.drop_last(),
    {
        if self.values.len() == 0 {
            return Err(Fault::Invalid);
        }
        let c = match self.values.pop() { Some(c) => c, None => Cell(0) };
        let t = match self.shadow.pop() { Some(t) => t, None => RefTag::NoRef };
        Ok((c, t))
    }

    /// Pops the top cell.
    pub fn pop_cell(&mut self) -> (r: Result<Cell, Fault>)
        requires
            old(self).wf(),
        ensures
            final(self).wf(),
            final(self).frames@ == old(self).frames@,
            old(self).values@.len() == 0 ==> r == Err::<Cell, Fault>(Fault::Invalid) && *final(self) == *old(self),
            old(self).values@.len() > 0 ==> r == Ok::<Cell, Fault>(old(self).values@.last())
                && final(self).values@ == old(self).values@.drop_last()
                && final(self).shadow@ == old(self).shadow@.drop_last(),
    {
        match self.pop_tagged() {
            Ok((c, _)) => Ok(c),
            Err(f) => Err(f),
        }
    }

    /// Pops the top two cells, deeper first.
    pub fn pop2_cells(&mut self) -> (r: Result<(Cell, Cell), Fault>)
        requires
            old(self).wf(),
        ensures
            final(self).wf(),
            final(self).frames@ == old(self).frames@,
            old(self).values@.len() < 2 ==> r == Err::<(Cell, Cell), Fault>(Fault::Invalid),
            old(self).values@.len() >= 2 ==> {
                let n = old(self).values@.len();
                &&& r == Ok::<(Cell, Cell), Fault>((old(self).values@[n - 2], old(self).values@[n - 1]))
                &&& final(self).values@ == old(self).values@.subrange(0, n - 2)
                &&& final(self).shadow@ == old(self).shadow@.subrange(0, n - 2)
            },
    {
        if self.values.len() < 2 {
            return Err(Fault::Invalid);
        }
        let b = self.pop_cell()?;
        let a = self.pop_cell()?;
        proof {
            let o = old(self);
            let n = o.values@.len();
            assert(self.values@ =~= o.values@.subrange(0, n - 2));
            assert(self.shadow@ =~= o.shadow@.subrange(0, n - 2));
        }
        Ok((a, b))
    }
}

/// The cell and tag `k` places below the top of a stack (`k == 1` is the top), if there.
pub open spec fn nth_top(v: Seq<Cell>, t: Seq<RefTag>, k: int) -> Option<(Cell, RefTag)> {
    if v.len() >= k { Some((v[v.len() - k], t[v.len() - k])) } else { None }
}

/// Whether `v`/`t` is what remains of `ov`/`ot` after popping at most three operands.
pub open spec fn popped_at_most_three(v: Seq<Cell>, t: Seq<RefTag>, ov: Seq<Cell>, ot: Seq<RefTag>) -> bool {
    &&& v.len() <= ov.len() <= v.len() + 3
    &&& v == ov.subrange(0, v.len() as int)
    &&& t == ot.subrange(0, t.len() as int)
    &&& t.len() == v.len()
}

/// A stack from which nothing was popped.
pub proof fn lemma_nothing_popped(v: Seq<Cell>, t: Seq<RefTag>)
    requires
        v.len() == t.len(),
    ensures
        popped_at_most_three(v, t, v, t),
{
    assert(v.subrange(0, v.len() as int) =~= v);
    assert(t.subrange(0, t.len() as int) =~= t);
}

impl Execution {
    /// The top three operands with their tags, deepest first.
    pub fn top_three(&self) -> (r: (Option<(Cell, RefTag)>, Option<(Cell, RefTag)>, Option<(Cell, RefTag)>))
        requires
            self.wf(),
        ensures
            r == (nth_top(self.values@, self.shadow@, 3), nth_top(self.values@, self.shadow@, 2), nth_top(self.values@, self.shadow@, 1)),
    {
        let n = self.values.len();
        let a = if n >= 3 { Some((self.values[n - 3], self.shadow[n - 3])) } else { None };
        let b = if n >= 2 { Some((self.values[n - 2], self.shadow[n - 2])) } else { None };
        let c = if n >= 1 { Some((self.values[n - 1], self.shadow[n - 1])) } else { None };
        (a, b, c)
    }

    /// Pushes back operands popped from the stack `ov`/`ot` (whose top three `top_three` gave),
    /// so that the stack is `ov`/`ot` again.
    pub fn restore_top(&mut self, top: (Option<(Cell, RefTag)>, Option<(Cell, RefTag)>, Option<(Cell, RefTag)>),
        n: usize, Ghost(ov): Ghost<Seq<Cell>>, Ghost(ot): Ghost<Seq<RefTag>>)
        requires
            old(self).wf(),
            n == ov.len(),
            ov.len() == ot.len(),
            ov.len() <= u32::MAX,
            popped_at_most_three(old(self).values@, old(self).shadow@, ov, ot),
            top == (nth_top(ov, ot, 3), nth_top(ov, ot, 2), nth_top(ov, ot, 1)),
        ensures
            final(self).wf(),
            final(self).values@ == ov,
            final(self).shadow@ == ot,
            final(self).frames@ == old(self).frames@,
    {
        if n - self.values.len() == 3 {
            match top.0 {
                Some((c, t)) => { let _ = self.push_cell(c, t); },
                None => {},
            }
        }
        if self.values.len() <= n && n - self.values.len() == 2 {
            match top.1 {
                Some((c, t)) => { let _ = self.push_cell(c, t); },
                None => {},
            }
        }
        if self.values.len() <= n && n - self.values.len() == 1 {
            match top.2 {
                Some((c, t)) => { let _ = self.push_cell(c, t); },
                None => {},
            }
        }
        proof {
            assert(self.values@ =~= ov);
            assert(self.shadow@ =~= ot);
        }
    }
}

/// The stack after popping `k` operands and pushing `c`.
pub open spec fn replace_top(s: Seq<Cell>, k: nat, c: Cell) -> Seq<Cell> {
    s.subrange(0, s.len() - k).push(c)
}

} // verus!
