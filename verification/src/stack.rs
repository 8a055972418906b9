//! The operand stack and the call-frame record.

use vstd::prelude::*;

verus! {

/// The operand stack: a sequence of signed values, mutated only through
/// push, pop, peek and indexed access.  Every access outside the current
/// bounds is excluded by precondition; the engine tests the bounds first
/// and turns a violation into a fatal fault.
pub struct Stack(pub Vec<i64>);

impl View for Stack {
    type V = Seq<i64>;

    open spec fn view(&self) -> Seq<i64> {
        self.0@
    }
}

impl Stack {
    /// An empty operand stack.
    pub fn new() -> (s: Stack)
        ensures
            s@ == Seq::<i64>::empty(),
    {
        Stack(Vec::new())
    }

    /// Append a value at the top.
    pub fn push(&mut self, v: i64)
        ensures
            final(self)@ == old(self)@.push(v),
    {
        self.0.push(v);
    }

    /// Remove and return the top value.
    pub fn pop(&mut self) -> (v: i64)
        requires
            old(self)@.len() > 0,
        ensures
            v == old(self)@.last(),
            final(self)@ == old(self)@.drop_last(),
    {
        let v = self.0.pop().unwrap();
        proof {
            assert(self@ =~= old(self)@.drop_last());
        }
        v
    }

    /// Read the top value without removing it.
    pub fn peek(&self) -> (v: i64)
        requires
            self@.len() > 0,
        ensures
            v == self@.last(),
    {
        self.0[self.0.len() - 1]
    }

    /// Borrow the top value mutably.
    pub fn peek_mut(&mut self) -> (r: &mut i64)
        requires
            old(self)@.len() > 0,
        ensures
            *r == old(self)@.last(),
            final(self)@ == old(self)@.update(old(self)@.len() - 1, *final(r)),
    {
        let i = self.0.len() - 1;
        &mut self.0[i]
    }

    /// The number of values on the stack.
    pub fn len(&self) -> (n: usize)
        ensures
            n == self@.len(),
    {
        self.0.len()
    }

    /// Borrow the value at absolute index `i`.
    pub fn get(&self, i: usize) -> (r: &i64)
        requires
            i < self@.len(),
        ensures
            *r == self@[i as int],
    {
        &self.0[i]
    }

    /// Borrow the value at absolute index `i` mutably.
    pub fn get_mut(&mut self, i: usize) -> (r: &mut i64)
        requires
            i < old(self)@.len(),
        ensures
            *r == old(self)@[i as int],
            final(self)@ == old(self)@.update(i as int, *final(r)),
    {
        &mut self.0[i]
    }

    /// Give up the stack as a plain vector of values.
    pub fn into_vec(self) -> (v: Vec<i64>)
        ensures
            v@ == self@,
    {
        self.0
    }
}

/// One call-frame record: the operand-stack length at the moment of the
/// call (the base for frame-relative addressing) and the position to
/// return to.
#[derive(Clone, Copy, Debug, PartialEq, Eq, Structural)]
pub struct StackFrame {
    pub stack_offset: usize,
    pub ip: usize,
}

} // verus!
