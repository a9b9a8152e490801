//! The growable stack of the runtime.

use vstd::prelude::*;
use crate::buffer::Buffer;
use crate::failure::Failure;

verus! {

/// The number of cells the stack is given when the runtime starts.
pub const INITIAL_SIZE: usize = 16;

/// The capacity after room for one more value has been made: unchanged while
/// a cell is free, else twice the old capacity and at least one cell.
pub open spec fn grown_capacity(length: nat, capacity: nat) -> nat {
    if length < capacity {
        capacity
    } else if capacity == 0 {
        1
    } else {
        2 * capacity
    }
}

/// Whether a container with `length` values in a buffer of `capacity` cells
/// can take one more: a cell is free, or twice the capacity fits in a machine
/// word.
pub open spec fn can_take(length: nat, capacity: nat) -> bool {
    length < capacity || length <= usize::MAX / 2
}

/// A full container doubles its capacity for one more value, an empty one
/// without cells gets its first cell, and a container with a free cell keeps
/// its capacity.
pub proof fn lemma_grown_capacity(length: nat, capacity: nat)
    ensures
        length == capacity && capacity > 0 ==> grown_capacity(length, capacity) == 2 * capacity,
        length == 0 && capacity == 0 ==> grown_capacity(length, capacity) == 1,
        length < capacity ==> grown_capacity(length, capacity) == capacity,
        length <= capacity ==> length < grown_capacity(length, capacity),
{
}

/// The cells of a buffer of `size` cells that the cells of a smaller buffer
/// have been copied into: the old cells at its start, and zeros after them.
pub open spec fn grown_cells(cells: Seq<i64>, size: nat) -> Seq<i64> {
    Seq::new(
        size,
        |index: int|
            if index < cells.len() {
                cells[index]
            } else {
                0i64
            },
    )
}

/// A stack of 64-bit values in a buffer that doubles when it is full.
///
/// The view is the sequence of the values held, oldest first: the top of the
/// stack is the last element.
pub struct Stack {
    data: Buffer,
    length: usize,
    capacity: usize,
}

impl View for Stack {
    type V = Seq<i64>;

    closed spec fn view(&self) -> Seq<i64> {
        self.data@.subrange(0, self.length as int)
    }
}

impl Stack {
    /// The buffer holds `capacity` cells, of which the first `length` are in use.
    pub closed spec fn wf(&self) -> bool {
        &&& self.data@.len() == self.capacity
        &&& self.length <= self.capacity
    }

    /// The number of cells of the current buffer.
    pub closed spec fn spec_capacity(&self) -> usize {
        self.capacity
    }

    /// The cells of the current buffer.
    pub closed spec fn cells(&self) -> Seq<i64> {
        self.data@
    }

    /// The values held are the first cells of the buffer.
    pub proof fn lemma_view(&self)
        requires
            self.wf(),
        ensures
            self.cells().len() == self.spec_capacity(),
            self@.len() <= self.spec_capacity(),
            self@ == self.cells().take(self@.len() as int),
    {
        assert(self@ =~= self.cells().take(self@.len() as int));
    }

    /// An empty stack that owns no cells yet.
    pub fn new() -> (stack: Stack)
        ensures
            stack.wf(),
            stack@ == Seq::<i64>::empty(),
            stack.spec_capacity() == 0,
            stack.cells() == Seq::<i64>::empty(),
    {
        let stack = Stack { data: Buffer::allocate(0), length: 0, capacity: 0 };
        assert(stack.cells() =~= Seq::<i64>::empty());
        assert(stack@ =~= Seq::<i64>::empty());
        stack
    }

    /// The number of values held.
    pub fn len(&self) -> (length: usize)
        requires
            self.wf(),
        ensures
            length == self@.len(),
    {
        self.length
    }

    /// The cell of the current buffer at `index`, whether or not it holds a
    /// value.
    pub fn cell(&self, index: usize) -> (value: i64)
        requires
            self.wf(),
            index < self.spec_capacity(),
        ensures
            value == self.cells()[index as int],
    {
        self.data.read(index)
    }

    /// The number of cells of the current buffer.
    #[verifier::when_used_as_spec(spec_capacity)]
    pub fn capacity(&self) -> (capacity: usize)
        requires
            self.wf(),
        ensures
            capacity == self.spec_capacity(),
    {
        self.capacity
    }

    /// Moves the stack into a fresh buffer of `new_size` cells: the old cells
    /// are copied to its start and the old buffer is let go.
    pub fn resize(&mut self, new_size: usize)
        requires
            old(self).wf(),
            old(self).spec_capacity() <= new_size,
        ensures
            final(self).wf(),
            final(self)@ == old(self)@,
            final(self).spec_capacity() == new_size,
            final(self).cells() == grown_cells(old(self).cells(), new_size as nat),
    {
        let mut fresh = Buffer::allocate(new_size);
        fresh.copy_from(&self.data, 0, 0, self.capacity);
        self.data = fresh;
        self.capacity = new_size;
        assert(self@ =~= old(self)@);
        assert(self.cells() =~= grown_cells(old(self).cells(), new_size as nat));
    }

    /// Puts `value` on top, doubling the buffer first when it is full.
    pub fn push(&mut self, value: i64)
        requires
            old(self).wf(),
            can_take(old(self)@.len(), old(self).spec_capacity() as nat),
        ensures
            final(self).wf(),
            final(self)@ == old(self)@.push(value),
            final(self).spec_capacity() == grown_capacity(
                old(self)@.len(),
                old(self).spec_capacity() as nat,
            ),
            final(self).cells() == grown_cells(
                old(self).cells(),
                final(self).spec_capacity() as nat,
            ).update(old(self)@.len() as int, value),
    {
        if self.length >= self.capacity {
            let doubled: usize = if self.capacity == 0 {
                1
            } else {
                self.capacity * 2
            };
            self.resize(doubled);
        }
        self.data.write(self.length, value);
        self.length += 1;
        assert(self@ =~= old(self)@.push(value));
        assert(self.cells() =~= grown_cells(old(self).cells(), self.capacity as nat).update(
            old(self)@.len() as int,
            value,
        ));
    }

    /// Takes the top value off, or reports underflow when the stack is empty
    /// and leaves it as it was.
    pub fn pop(&mut self) -> (result: Result<i64, Failure>)
        requires
            old(self).wf(),
        ensures
            final(self).wf(),
            final(self).spec_capacity() == old(self).spec_capacity(),
            final(self).cells() == old(self).cells(),
            old(self)@.len() == 0 ==> result == Err::<i64, Failure>(Failure::StackUnderflow)
                && final(self)@ == old(self)@,
            old(self)@.len() > 0 ==> result == Ok::<i64, Failure>(old(self)@.last())
                && final(self)@ == old(self)@.drop_last(),
    {
        if self.length == 0 {
            return Err(Failure::StackUnderflow);
        }
        self.length -= 1;
        let value = self.data.read(self.length);
        assert(self@ =~= old(self)@.drop_last());
        Ok(value)
    }
}

/// The stack after each of `values` has been pushed, the first one first.
pub open spec fn pushed_all(stack: Seq<i64>, values: Seq<i64>) -> Seq<i64>
    decreases values.len(),
{
    if values.len() == 0 {
        stack
    } else {
        pushed_all(stack.push(values.first()), values.drop_first())
    }
}

/// What `count` pops return, the first pop first, and the stack they leave.
/// Popping stops early at an empty stack.
pub open spec fn popped_all(stack: Seq<i64>, count: nat) -> (Seq<i64>, Seq<i64>)
    decreases count,
{
    if count == 0 || stack.len() == 0 {
        (Seq::empty(), stack)
    } else {
        let later = popped_all(stack.drop_last(), (count - 1) as nat);
        (seq![stack.last()] + later.0, later.1)
    }
}

/// Pushing a run of values appends them to the stack.
pub proof fn lemma_pushed_all_appends(stack: Seq<i64>, values: Seq<i64>)
    ensures
        pushed_all(stack, values) == stack + values,
    decreases values.len(),
{
    if values.len() == 0 {
        assert(stack + values =~= stack);
    } else {
        lemma_pushed_all_appends(stack.push(values.first()), values.drop_first());
        assert(stack.push(values.first()) + values.drop_first() =~= stack + values);
    }
}

/// Values come off the stack in the reverse of the order in which they went
/// on: after `values` have been pushed, as many pops return them last one
/// first and leave the stack as it was before.
pub proof fn lemma_stack_order(stack: Seq<i64>, values: Seq<i64>)
    ensures
        popped_all(pushed_all(stack, values), values.len()) == (values.reverse(), stack),
    decreases values.len(),
{
    lemma_pushed_all_appends(stack, values);
    if values.len() == 0 {
        assert(values.reverse() =~= Seq::<i64>::empty());
    } else {
        let shorter = values.drop_last();
        lemma_stack_order(stack, shorter);
        lemma_pushed_all_appends(stack, shorter);
        assert((stack + values).drop_last() =~= stack + shorter);
        assert((stack + values).last() == values.last());
        assert(values.reverse() =~= seq![values.last()] + shorter.reverse());
    }
}

} // verus!
