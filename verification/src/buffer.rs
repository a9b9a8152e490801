//! An owning block of 64-bit cells.
//!
//! The containers of the runtime never touch raw memory: they allocate a
//! `Buffer`, copy ranges of cells between buffers, and let the old buffer go
//! when it is replaced.

use vstd::prelude::*;

verus! {

/// A fixed-size block of cells. Its view is the sequence of the cells.
pub struct Buffer {
    cells: Vec<i64>,
}

impl View for Buffer {
    type V = Seq<i64>;

    closed spec fn view(&self) -> Seq<i64> {
        self.cells@
    }
}

impl Buffer {
    /// A buffer of `size` cells, all zero.
    pub fn allocate(size: usize) -> (buffer: Buffer)
        ensures
            buffer@.len() == size,
            forall|i: int| 0 <= i < size ==> buffer@[i] == 0,
    {
        let mut cells: Vec<i64> = Vec::new();
        let mut filled: usize = 0;
        while filled < size
            invariant
                filled <= size,
                cells@.len() == filled,
                forall|i: int| 0 <= i < filled ==> cells@[i] == 0,
            decreases size - filled,
        {
            cells.push(0);
            filled += 1;
        }
        Buffer { cells }
    }

    /// The number of cells.
    pub fn size(&self) -> (size: usize)
        ensures
            size == self@.len(),
    {
        self.cells.len()
    }

    /// The cell at `index`.
    pub fn read(&self, index: usize) -> (value: i64)
        requires
            index < self@.len(),
        ensures
            value == self@[index as int],
    {
        self.cells[index]
    }

    /// Overwrites the cell at `index`.
    pub fn write(&mut self, index: usize, value: i64)
        requires
            index < old(self)@.len(),
        ensures
            final(self)@ == old(self)@.update(index as int, value),
    {
        self.cells.set(index, value);
    }

    /// Copies `count` cells of `source`, starting at `from`, over the cells of
    /// `self` that start at `to`. Every other cell keeps its value.
    pub fn copy_from(&mut self, source: &Buffer, from: usize, to: usize, count: usize)
        requires
            from + count <= source@.len(),
            to + count <= old(self)@.len(),
        ensures
            final(self)@.len() == old(self)@.len(),
            forall|i: int|
                0 <= i < old(self)@.len() ==> #[trigger] final(self)@[i] == (if to <= i < to + count {
                    source@[i - to + from]
                } else {
                    old(self)@[i]
                }),
    {
        let source_size = source.cells.len();
        let target_size = self.cells.len();
        let mut done: usize = 0;
        while done < count
            invariant
                done <= count,
                from + count <= source_size == source@.len(),
                to + count <= target_size == self@.len(),
                self@.len() == old(self)@.len(),
                forall|i: int|
                    0 <= i < self@.len() ==> #[trigger] self@[i] == (if to <= i < to + done {
                        source@[i - to + from]
                    } else {
                        old(self)@[i]
                    }),
            decreases count - done,
        {
            let value = source.cells[from + done];
            self.cells.set(to + done, value);
            done += 1;
        }
    }
}

} // verus!
