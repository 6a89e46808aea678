//! Fixed-depth store of subroutine return addresses, strict LIFO.

use vstd::prelude::*;

verus! {

/// Number of return addresses the call stack can hold.
pub const STACK_CAPACITY: usize = 24;

/// The call stack: up to [`STACK_CAPACITY`] 16-bit return addresses and a
/// stack pointer. It is used only to save and restore the program counter
/// across subroutine calls.
pub struct Stack {
    memory: Vec<u16>,
    stack_pointer: usize,
}

impl View for Stack {
    type V = Seq<u16>;

    /// The pushed return addresses, oldest first.
    closed spec fn view(&self) -> Seq<u16> {
        self.memory@.take(self.stack_pointer as int)
    }
}

impl Stack {
    pub closed spec fn wf(&self) -> bool {
        self.memory@.len() == STACK_CAPACITY && self.stack_pointer <= STACK_CAPACITY
    }

    pub fn new() -> (s: Stack)
        ensures
            s.wf(),
            s@ == Seq::<u16>::empty(),
    {
        let mut memory: Vec<u16> = Vec::new();
        while memory.len() < STACK_CAPACITY
            invariant
                memory@.len() <= STACK_CAPACITY,
            decreases STACK_CAPACITY - memory@.len(),
        {
            memory.push(0);
        }
        let s = Stack { memory, stack_pointer: 0 };
        assert(s@ =~= Seq::<u16>::empty());
        s
    }

    /// How many return addresses are currently stored.
    pub fn len(&self) -> (n: usize)
        requires
            self.wf(),
        ensures
            n == self@.len(),
    {
        self.stack_pointer
    }

    /// Removes and returns the most recently pushed address.
    pub fn pop(&mut self) -> (address: u16)
        requires
            old(self).wf(),
            old(self)@.len() > 0,
        ensures
            final(self).wf(),
            address == old(self)@.last(),
            final(self)@ == old(self)@.drop_last(),
    {
        self.stack_pointer = self.stack_pointer - 1;
        let address = self.memory[self.stack_pointer];
        assert(self@ =~= old(self)@.drop_last());
        address
    }

    /// Appends a return address.
    pub fn push(&mut self, return_address: u16)
        requires
            old(self).wf(),
            old(self)@.len() < STACK_CAPACITY,
        ensures
            final(self).wf(),
            final(self)@ == old(self)@.push(return_address),
    {
        self.memory.set(self.stack_pointer, return_address);
        self.stack_pointer = self.stack_pointer + 1;
        assert(self@ =~= old(self)@.push(return_address));
    }
}

} // verus!
