//! The growable double-ended queue of the runtime, laid out as a circular
//! buffer.
//!
//! ```text
//! +---+---+---+---+---+---+---+---+---+
//! | 5 | 3 | 7 | ? | ? | ? | ? | 8 | 1 |
//! +---+---+---+---+---+---+---+---+---+
//!               |               |
//!               front           back
//! ```
//!
//! The values in use start at `back` and run upwards, wrapping round the end
//! of the buffer; `front` is the first free cell after them.

use vstd::prelude::*;
use vstd::arithmetic::div_mod::{lemma_mod_sub_multiples_vanish, lemma_small_mod};
use crate::buffer::Buffer;
use crate::failure::Failure;
use crate::stack::{can_take, grown_capacity};

verus! {

/// The number of cells the deque is given when the runtime starts.
pub const INITIAL_CAPACITY: usize = 1;

/// The index of the cell that holds the value `offset` places from the back.
pub open spec fn slot(back: int, offset: int, capacity: int) -> int
    recommends
        capacity > 0,
{
    (back + offset) % capacity
}

/// The index of the first free cell after the values in use.
pub open spec fn front_index(back: int, length: int, capacity: int) -> int
    recommends
        capacity > 0,
{
    (back + length) % capacity
}

/// Whether a resize treats the values in use as running round the end of the
/// buffer: `back` is not below the front index.
pub open spec fn is_wrapping(back: int, length: int, capacity: int) -> bool
    recommends
        capacity > 0,
{
    back >= front_index(back, length, capacity)
}

/// Where `back` lies after a resize from `capacity` to `new_capacity` cells.
pub open spec fn resized_back(back: int, length: int, capacity: int, new_capacity: int) -> int {
    if capacity > 0 && is_wrapping(back, length, capacity) {
        new_capacity - (capacity - back)
    } else {
        back
    }
}

/// Where `back` lies after room for one more value has been made.
pub open spec fn grown_back(back: int, length: int, capacity: int) -> int {
    if length < capacity {
        back
    } else {
        resized_back(back, length, capacity, grown_capacity(length as nat, capacity as nat) as int)
    }
}

/// The cells of the buffer of `new_capacity` cells that a resize moves the
/// deque into. A first buffer holds zeros. When the values wrap, the cells
/// below the front index stand at the start and the cells from `back` on at
/// the very end; else the whole old buffer stands at the start. Every other
/// cell is zero.
pub open spec fn resized_cells(
    cells: Seq<i64>,
    back: int,
    length: int,
    new_capacity: int,
) -> Seq<i64> {
    let capacity = cells.len() as int;
    let shift = new_capacity - capacity;
    Seq::new(
        new_capacity as nat,
        |index: int|
            if capacity == 0 {
                0i64
            } else if is_wrapping(back, length, capacity) {
                if index < front_index(back, length, capacity) {
                    cells[index]
                } else if index >= back + shift {
                    cells[index - shift]
                } else {
                    0i64
                }
            } else if index < capacity {
                cells[index]
            } else {
                0i64
            },
    )
}

/// The cells after room for one more value has been made.
pub open spec fn grown_deque_cells(cells: Seq<i64>, back: int, length: int) -> Seq<i64> {
    if length < cells.len() {
        cells
    } else {
        resized_cells(cells, back, length, grown_capacity(length as nat, cells.len()) as int)
    }
}

/// An index below twice the capacity wraps by one subtraction at most.
pub proof fn lemma_wrap_once(index: int, capacity: int)
    requires
        0 <= index < 2 * capacity,
    ensures
        index % capacity == if index < capacity {
            index
        } else {
            index - capacity
        },
{
    if index < capacity {
        lemma_small_mod(index as nat, capacity as nat);
    } else {
        lemma_small_mod((index - capacity) as nat, capacity as nat);
        lemma_mod_sub_multiples_vanish(index, capacity);
    }
}

/// A double-ended queue of 64-bit values in a circular buffer that doubles
/// when it is full.
///
/// The view is the sequence of the values held, from the back to the front:
/// the value at the back is the first element, the one at the front the last.
pub struct Deque {
    data: Buffer,
    back: usize,
    length: usize,
    capacity: usize,
}

impl View for Deque {
    type V = Seq<i64>;

    closed spec fn view(&self) -> Seq<i64> {
        Seq::new(
            self.length as nat,
            |i: int| self.data@[slot(self.back as int, i, self.capacity as int)],
        )
    }
}

impl Deque {
    /// The buffer holds `capacity` cells, `back` names one of them, and no
    /// more than `capacity` values are in use.
    pub closed spec fn wf(&self) -> bool {
        &&& self.data@.len() == self.capacity
        &&& self.length <= self.capacity
        &&& self.back < self.capacity || (self.back == 0 && self.capacity == 0)
    }

    /// The number of cells of the current buffer.
    pub closed spec fn spec_capacity(&self) -> usize {
        self.capacity
    }

    /// The index of the cell that holds the value at the back.
    pub closed spec fn spec_back(&self) -> usize {
        self.back
    }

    /// The cells of the current buffer.
    pub closed spec fn cells(&self) -> Seq<i64> {
        self.data@
    }

    /// The values held are the cells from `back` on, wrapping round the end
    /// of the buffer; `back` names a cell of the buffer, and the value at the
    /// back is the one in that cell.
    pub proof fn lemma_view(&self)
        requires
            self.wf(),
        ensures
            self.cells().len() == self.spec_capacity(),
            self@.len() <= self.spec_capacity(),
            self.spec_capacity() > 0 ==> self.spec_back() < self.spec_capacity(),
            self.spec_capacity() == 0 ==> self.spec_back() == 0,
            self@.len() > 0 ==> self@.first() == self.cells()[self.spec_back() as int],
            forall|offset: int|
                0 <= offset < self@.len() ==> self@[offset] == self.cells()[#[trigger] slot(
                    self.spec_back() as int,
                    offset,
                    self.spec_capacity() as int,
                )],
    {
        if self@.len() > 0 {
            lemma_wrap_once(self.back as int, self.capacity as int);
        }
    }

    /// A deque without values whose buffer has `capacity` cells.
    pub fn with_capacity(capacity: usize) -> (deque: Deque)
        ensures
            deque.wf(),
            deque@ == Seq::<i64>::empty(),
            deque.spec_capacity() == capacity,
            deque.spec_back() == 0,
            deque.cells() == Seq::new(capacity as nat, |index: int| 0i64),
    {
        let mut deque = Deque { data: Buffer::allocate(0), back: 0, length: 0, capacity: 0 };
        deque.resize(capacity);
        assert(deque.cells() =~= Seq::new(capacity as nat, |index: int| 0i64));
        deque
    }

    /// A deque without values, as the runtime starts with.
    pub fn new() -> (deque: Deque)
        ensures
            deque.wf(),
            deque@ == Seq::<i64>::empty(),
            deque.spec_capacity() == INITIAL_CAPACITY,
            deque.spec_back() == 0,
            deque.cells() == seq![0i64],
    {
        let deque = Deque::with_capacity(INITIAL_CAPACITY);
        assert(deque.cells() =~= seq![0i64]);
        deque
    }

    /// The number of values held.
    pub fn len(&self) -> (length: usize)
        requires
            self.wf(),
        ensures
            length == self@.len(),
    {
        self.length
    }

    /// The cell of the current buffer at `index`, whether or not it holds a
    /// value.
    pub fn cell(&self, index: usize) -> (value: i64)
        requires
            self.wf(),
            index < self.spec_capacity(),
        ensures
            value == self.cells()[index as int],
    {
        self.data.read(index)
    }

    /// The number of cells of the current buffer.
    #[verifier::when_used_as_spec(spec_capacity)]
    pub fn capacity(&self) -> (capacity: usize)
        requires
            self.wf(),
        ensures
            capacity == self.spec_capacity(),
    {
        self.capacity
    }

    /// The index of the cell that holds the value at the back.
    #[verifier::when_used_as_spec(spec_back)]
    pub fn back(&self) -> (back: usize)
        requires
            self.wf(),
        ensures
            back == self.spec_back(),
    {
        self.back
    }

    /// The index of the first free cell after the values in use.
    pub fn front(&self) -> (front: usize)
        requires
            self.wf(),
            self.spec_capacity() > 0,
        ensures
            front == front_index(
                self.spec_back() as int,
                self@.len() as int,
                self.spec_capacity() as int,
            ),
            front < self.spec_capacity(),
    {
        proof {
            lemma_wrap_once(self.back + self.length, self.capacity as int);
        }
        if self.length >= self.capacity - self.back {
            self.back - (self.capacity - self.length)
        } else {
            self.back + self.length
        }
    }

    /// Moves the deque into a fresh buffer of `new_capacity` cells and lets
    /// the old buffer go.
    ///
    /// A first buffer is installed as it is. Values that wrap round the end
    /// of the old buffer are copied in two chunks: the cells below the front
    /// index to the start of the new buffer, the cells from `back` on to its
    /// very end, where `back` then points. Otherwise the old buffer is copied to
    /// the start of the new one and `back` stays.
    pub fn resize(&mut self, new_capacity: usize)
        requires
            old(self).wf(),
            old(self).spec_capacity() <= new_capacity,
        ensures
            final(self).wf(),
            final(self)@ == old(self)@,
            final(self).spec_capacity() == new_capacity,
            final(self).spec_back() == resized_back(
                old(self).spec_back() as int,
                old(self)@.len() as int,
                old(self).spec_capacity() as int,
                new_capacity as int,
            ),
            final(self).cells() == resized_cells(
                old(self).cells(),
                old(self).spec_back() as int,
                old(self)@.len() as int,
                new_capacity as int,
            ),
    {
        let mut fresh = Buffer::allocate(new_capacity);
        if self.capacity != 0 {
            let front = self.front();
            if self.back >= front {
                fresh.copy_from(&self.data, 0, 0, front);
                let distance_to_end = self.capacity - self.back;
                let new_back = new_capacity - distance_to_end;
                fresh.copy_from(&self.data, self.back, new_back, distance_to_end);
                proof {
                    assert forall|i: int| 0 <= i < self.length implies fresh@[#[trigger] slot(
                        new_back as int,
                        i,
                        new_capacity as int,
                    )] == self.data@[slot(self.back as int, i, self.capacity as int)] by {
                        lemma_wrap_once(self.back + i, self.capacity as int);
                        lemma_wrap_once(new_back + i, new_capacity as int);
                        lemma_wrap_once(self.back + self.length, self.capacity as int);
                    }
                }
                self.back = new_back;
            } else {
                fresh.copy_from(&self.data, 0, 0, self.capacity);
                proof {
                    assert forall|i: int| 0 <= i < self.length implies fresh@[#[trigger] slot(
                        self.back as int,
                        i,
                        new_capacity as int,
                    )] == self.data@[slot(self.back as int, i, self.capacity as int)] by {
                        lemma_wrap_once(self.back + i, self.capacity as int);
                        lemma_wrap_once(self.back + i, new_capacity as int);
                        lemma_wrap_once(self.back + self.length, self.capacity as int);
                    }
                }
            }
        }
        self.data = fresh;
        self.capacity = new_capacity;
        assert(self@ =~= old(self)@);
        assert(self.cells() =~= resized_cells(
            old(self).cells(),
            old(self).back as int,
            old(self).length as int,
            new_capacity as int,
        )) by {
            if old(self).capacity > 0 {
                lemma_wrap_once(old(self).back + old(self).length, old(self).capacity as int);
            }
        }
    }

    /// Makes room for one more value: doubles a full buffer, and gives an
    /// empty one its first cell.
    fn grow_if_full(&mut self)
        requires
            old(self).wf(),
            can_take(old(self)@.len(), old(self).spec_capacity() as nat),
        ensures
            final(self).wf(),
            final(self)@ == old(self)@,
            final(self)@.len() < final(self).spec_capacity(),
            final(self).spec_capacity() == grown_capacity(
                old(self)@.len(),
                old(self).spec_capacity() as nat,
            ),
            final(self).spec_back() == grown_back(
                old(self).spec_back() as int,
                old(self)@.len() as int,
                old(self).spec_capacity() as int,
            ),
            final(self).cells() == grown_deque_cells(
                old(self).cells(),
                old(self).spec_back() as int,
                old(self)@.len() as int,
            ),
    {
        if self.length >= self.capacity {
            let doubled: usize = if self.capacity == 0 {
                1
            } else {
                self.capacity * 2
            };
            self.resize(doubled);
        }
    }

    /// Adds `value` at the front.
    pub fn insert_front(&mut self, value: i64)
        requires
            old(self).wf(),
            can_take(old(self)@.len(), old(self).spec_capacity() as nat),
        ensures
            final(self).wf(),
            final(self)@ == old(self)@.push(value),
            final(self).spec_capacity() == grown_capacity(
                old(self)@.len(),
                old(self).spec_capacity() as nat,
            ),
            final(self).spec_back() == grown_back(
                old(self).spec_back() as int,
                old(self)@.len() as int,
                old(self).spec_capacity() as int,
            ),
            final(self).cells() == grown_deque_cells(
                old(self).cells(),
                old(self).spec_back() as int,
                old(self)@.len() as int,
            ).update(
                front_index(
                    final(self).spec_back() as int,
                    old(self)@.len() as int,
                    final(self).spec_capacity() as int,
                ),
                value,
            ),
    {
        self.grow_if_full();
        let front = self.front();
        let ghost before = *self;
        self.data.write(front, value);
        self.length += 1;
        proof {
            assert forall|i: int| 0 <= i < before.length implies #[trigger] slot(
                self.back as int,
                i,
                self.capacity as int,
            ) != front by {
                lemma_wrap_once(self.back + i, self.capacity as int);
                lemma_wrap_once(self.back + before.length, self.capacity as int);
            }
            assert(self@ =~= old(self)@.push(value));
        }
    }

    /// Adds `value` at the back.
    pub fn insert_back(&mut self, value: i64)
        requires
            old(self).wf(),
            can_take(old(self)@.len(), old(self).spec_capacity() as nat),
        ensures
            final(self).wf(),
            final(self)@ == seq![value] + old(self)@,
            final(self).spec_capacity() == grown_capacity(
                old(self)@.len(),
                old(self).spec_capacity() as nat,
            ),
            final(self).spec_back() == slot(
                grown_back(
                    old(self).spec_back() as int,
                    old(self)@.len() as int,
                    old(self).spec_capacity() as int,
                ),
                final(self).spec_capacity() - 1,
                final(self).spec_capacity() as int,
            ),
            final(self).cells() == grown_deque_cells(
                old(self).cells(),
                old(self).spec_back() as int,
                old(self)@.len() as int,
            ).update(final(self).spec_back() as int, value),
    {
        self.grow_if_full();
        let ghost before = *self;
        self.length += 1;
        self.back = if self.back == 0 {
            self.capacity - 1
        } else {
            self.back - 1
        };
        self.data.write(self.back, value);
        proof {
            lemma_wrap_once(self.back as int, self.capacity as int);
            lemma_wrap_once(before.back + (self.capacity - 1), self.capacity as int);
            assert forall|i: int| 1 <= i < self.length implies #[trigger] slot(
                self.back as int,
                i,
                self.capacity as int,
            ) == slot(before.back as int, i - 1, self.capacity as int) && slot(
                self.back as int,
                i,
                self.capacity as int,
            ) != self.back by {
                lemma_wrap_once(self.back + i, self.capacity as int);
                lemma_wrap_once(before.back + (i - 1), self.capacity as int);
            }
            assert(self@ =~= seq![value] + old(self)@);
        }
    }

    /// Takes the value at the front, or reports underflow when the deque is
    /// empty and leaves it as it was.
    pub fn remove_front(&mut self) -> (result: Result<i64, Failure>)
        requires
            old(self).wf(),
        ensures
            final(self).wf(),
            final(self).spec_capacity() == old(self).spec_capacity(),
            final(self).spec_back() == old(self).spec_back(),
            final(self).cells() == old(self).cells(),
            old(self)@.len() == 0 ==> result == Err::<i64, Failure>(Failure::DequeUnderflow)
                && final(self)@ == old(self)@,
            old(self)@.len() > 0 ==> result == Ok::<i64, Failure>(old(self)@.last())
                && final(self)@ == old(self)@.drop_last(),
    {
        if self.length == 0 {
            return Err(Failure::DequeUnderflow);
        }
        self.length -= 1;
        let front = self.front();
        let value = self.data.read(front);
        assert(self@ =~= old(self)@.drop_last());
        Ok(value)
    }

    /// Takes the value at the back, or reports underflow when the deque is
    /// empty and leaves it as it was.
    pub fn remove_back(&mut self) -> (result: Result<i64, Failure>)
        requires
            old(self).wf(),
        ensures
            final(self).wf(),
            final(self).spec_capacity() == old(self).spec_capacity(),
            final(self).cells() == old(self).cells(),
            old(self)@.len() == 0 ==> result == Err::<i64, Failure>(Failure::DequeUnderflow)
                && final(self)@ == old(self)@,
            old(self)@.len() > 0 ==> result == Ok::<i64, Failure>(old(self)@.first())
                && final(self)@ == old(self)@.subrange(1, old(self)@.len() as int),
            final(self).spec_back() == if old(self)@.len() > 0 {
                slot(old(self).spec_back() as int, 1, old(self).spec_capacity() as int)
            } else {
                old(self).spec_back() as int
            },
    {
        if self.length == 0 {
            return Err(Failure::DequeUnderflow);
        }
        let value = self.data.read(self.back);
        self.length -= 1;
        self.back = if self.back + 1 == self.capacity {
            0
        } else {
            self.back + 1
        };
        proof {
            lemma_wrap_once(old(self).back as int, self.capacity as int);
            lemma_wrap_once(old(self).back + 1, self.capacity as int);
            assert forall|i: int| 0 <= i < self.length implies #[trigger] slot(
                self.back as int,
                i,
                self.capacity as int,
            ) == slot(old(self).back as int, i + 1, self.capacity as int) by {
                lemma_wrap_once(self.back + i, self.capacity as int);
                lemma_wrap_once(old(self).back + (i + 1), self.capacity as int);
            }
            assert(self@ =~= old(self)@.subrange(1, old(self)@.len() as int));
        }
        Ok(value)
    }
}

/// What goes in at the front comes out at the front first, and what goes in
/// at the back comes out at the back: after `a` has been inserted at the
/// front, `b` at the back and `c` at the front of an empty deque, a removal
/// at the back gives `b`, and two removals at the front give `c` and then
/// `a`.
pub proof fn lemma_deque_order(a: i64, b: i64, c: i64)
    ensures
        ({
            let filled = (seq![b] + Seq::<i64>::empty().push(a)).push(c);
            let after_back = filled.subrange(1, filled.len() as int);
            let after_front = after_back.drop_last();
            &&& filled.first() == b
            &&& after_back.last() == c
            &&& after_front.last() == a
            &&& after_front.drop_last() == Seq::<i64>::empty()
        }),
{
    let filled = (seq![b] + Seq::<i64>::empty().push(a)).push(c);
    assert(filled.len() == 3);
    assert(filled.subrange(1, 3).drop_last().drop_last() =~= Seq::<i64>::empty());
}

/// What `count` removals at the back return, the first removal first, and
/// the deque that they leave. Removing stops early at an empty deque.
pub open spec fn removed_at_back(deque: Seq<i64>, count: nat) -> (Seq<i64>, Seq<i64>)
    decreases count,
{
    if count == 0 || deque.len() == 0 {
        (Seq::empty(), deque)
    } else {
        let later = removed_at_back(deque.subrange(1, deque.len() as int), (count - 1) as nat);
        (seq![deque.first()] + later.0, later.1)
    }
}

/// What `count` removals at the front return, the first removal first, and
/// the deque that they leave. Removing stops early at an empty deque.
pub open spec fn removed_at_front(deque: Seq<i64>, count: nat) -> (Seq<i64>, Seq<i64>)
    decreases count,
{
    if count == 0 || deque.len() == 0 {
        (Seq::empty(), deque)
    } else {
        let later = removed_at_front(deque.drop_last(), (count - 1) as nat);
        (seq![deque.last()] + later.0, later.1)
    }
}

/// As many removals at the back as a deque holds values return the values
/// from the back to the front and leave the deque empty.
pub proof fn lemma_drains_at_back(deque: Seq<i64>)
    ensures
        removed_at_back(deque, deque.len()) == (deque, Seq::<i64>::empty()),
    decreases deque.len(),
{
    if deque.len() > 0 {
        let rest = deque.subrange(1, deque.len() as int);
        lemma_drains_at_back(rest);
        assert(seq![deque.first()] + rest =~= deque);
    } else {
        assert(deque =~= Seq::<i64>::empty());
    }
}

/// As many removals at the front as a deque holds values return the values
/// from the front to the back and leave the deque empty.
pub proof fn lemma_drains_at_front(deque: Seq<i64>)
    ensures
        removed_at_front(deque, deque.len()) == (deque.reverse(), Seq::<i64>::empty()),
    decreases deque.len(),
{
    if deque.len() > 0 {
        let rest = deque.drop_last();
        lemma_drains_at_front(rest);
        assert(seq![deque.last()] + rest.reverse() =~= deque.reverse());
    } else {
        assert(deque.reverse() =~= Seq::<i64>::empty());
        assert(deque =~= Seq::<i64>::empty());
    }
}

/// A full deque takes one more value at the front and gives everything back
/// in order, wherever its values stood in the buffer: the capacity doubles,
/// `back` moves with the values that stood from it to the end of the buffer,
/// and as many removals at the back as there are values then return the old
/// values from the back to the front, and the new value last.
///
/// `capacity` and `back` are those of the full deque, `values` its values,
/// which an insertion at the front turns into `values.push(value)`.
pub proof fn lemma_full_deque_gives_all_back(
    values: Seq<i64>,
    value: i64,
    back: int,
    capacity: int,
)
    requires
        0 <= back < capacity,
        values.len() == capacity,
    ensures
        grown_capacity(values.len(), capacity as nat) == 2 * capacity,
        grown_back(back, values.len() as int, capacity) == capacity + back,
        removed_at_back(values.push(value), values.len() + 1) == (
            values.push(value),
            Seq::<i64>::empty(),
        ),
{
    lemma_wrap_once(back + capacity, capacity);
    lemma_drains_at_back(values.push(value));
}

} // verus!
