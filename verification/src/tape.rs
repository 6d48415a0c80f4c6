use crate::fault::Fault;
use vstd::prelude::*;

verus! {

/// The number of cells of program memory. The bound is the classical one and
/// is not configurable.
pub const TAPE_LEN: usize = 30000;

/// One increment of a cell, wrapping 255 back to 0.
pub open spec fn inc_cell(v: u8) -> u8 {
    if v == 255 {
        0
    } else {
        (v + 1) as u8
    }
}

/// One decrement of a cell, wrapping 0 back to 255.
pub open spec fn dec_cell(v: u8) -> u8 {
    if v == 0 {
        255
    } else {
        (v - 1) as u8
    }
}

/// Program memory: a fixed array of byte cells and the data cursor selecting
/// the current cell.
pub struct Tape {
    cells: Vec<u8>,
    cursor: usize,
}

impl Tape {
    /// The cells, as a sequence of exactly `TAPE_LEN` bytes.
    pub closed spec fn cells_view(&self) -> Seq<u8> {
        self.cells@
    }

    /// The data cursor.
    pub closed spec fn cursor_view(&self) -> int {
        self.cursor as int
    }

    /// The tape always holds exactly `TAPE_LEN` cells and the cursor always
    /// stays inside them.
    pub open spec fn wf(&self) -> bool {
        &&& self.cells_view().len() == TAPE_LEN
        &&& 0 <= self.cursor_view() < TAPE_LEN
    }

    /// A fresh tape: every cell zero, cursor at the leftmost cell.
    pub fn new() -> (t: Tape)
        ensures
            t.wf(),
            t.cells_view() =~= Seq::new(TAPE_LEN as nat, |i: int| 0u8),
            t.cursor_view() == 0,
    {
        let mut cells: Vec<u8> = Vec::new();
        let mut i: usize = 0;
        while i < TAPE_LEN
            invariant
                i <= TAPE_LEN,
                cells@ =~= Seq::new(i as nat, |j: int| 0u8),
            decreases TAPE_LEN - i,
        {
            cells.push(0u8);
            i = i + 1;
        }
        Tape { cells, cursor: 0 }
    }

    /// Move the cursor one cell to the left; at the left edge this is the
    /// `PointerUnderflow` fault and nothing changes.
    pub fn move_left(&mut self) -> (r: Result<(), Fault>)
        requires
            old(self).wf(),
        ensures
            final(self).wf(),
            final(self).cells_view() == old(self).cells_view(),
            old(self).cursor_view() == 0 ==> r == Result::<(), Fault>::Err(Fault::PointerUnderflow)
                && final(self).cursor_view() == old(self).cursor_view(),
            old(self).cursor_view() > 0 ==> r == Result::<(), Fault>::Ok(())
                && final(self).cursor_view() == old(self).cursor_view() - 1,
    {
        if self.cursor == 0 {
            Err(Fault::PointerUnderflow)
        } else {
            self.cursor = self.cursor - 1;
            Ok(())
        }
    }

    /// Move the cursor one cell to the right; at the right edge this is the
    /// `PointerOverflow` fault and nothing changes.
    pub fn move_right(&mut self) -> (r: Result<(), Fault>)
        requires
            old(self).wf(),
        ensures
            final(self).wf(),
            final(self).cells_view() == old(self).cells_view(),
            old(self).cursor_view() == TAPE_LEN - 1 ==> r == Result::<(), Fault>::Err(Fault::PointerOverflow)
                && final(self).cursor_view() == old(self).cursor_view(),
            old(self).cursor_view() < TAPE_LEN - 1 ==> r == Result::<(), Fault>::Ok(())
                && final(self).cursor_view() == old(self).cursor_view() + 1,
    {
        if self.cursor >= TAPE_LEN - 1 {
            Err(Fault::PointerOverflow)
        } else {
            self.cursor = self.cursor + 1;
            Ok(())
        }
    }

    /// Add one to the current cell, wrapping 255 to 0.
    pub fn inc(&mut self)
        requires
            old(self).wf(),
        ensures
            final(self).wf(),
            final(self).cursor_view() == old(self).cursor_view(),
            final(self).cells_view() == old(self).cells_view().update(
                old(self).cursor_view(),
                inc_cell(old(self).cells_view()[old(self).cursor_view()]),
            ),
    {
        let v = self.cells[self.cursor];
        if v == 255 {
            self.cells.set(self.cursor, 0);
        } else {
            self.cells.set(self.cursor, v + 1);
        }
    }

    /// Subtract one from the current cell, wrapping 0 to 255.
    pub fn dec(&mut self)
        requires
            old(self).wf(),
        ensures
            final(self).wf(),
            final(self).cursor_view() == old(self).cursor_view(),
            final(self).cells_view() == old(self).cells_view().update(
                old(self).cursor_view(),
                dec_cell(old(self).cells_view()[old(self).cursor_view()]),
            ),
    {
        let v = self.cells[self.cursor];
        if v == 0 {
            self.cells.set(self.cursor, 255);
        } else {
            self.cells.set(self.cursor, v - 1);
        }
    }

    /// The value of the current cell.
    pub fn read(&self) -> (r: u8)
        requires
            self.wf(),
        ensures
            r == self.cells_view()[self.cursor_view()],
    {
        self.cells[self.cursor]
    }

    /// Overwrite the current cell.
    pub fn write(&mut self, b: u8)
        requires
            old(self).wf(),
        ensures
            final(self).wf(),
            final(self).cursor_view() == old(self).cursor_view(),
            final(self).cells_view() == old(self).cells_view().update(old(self).cursor_view(), b),
    {
        self.cells.set(self.cursor, b);
    }

    /// The data cursor, as a cell index.
    pub fn position(&self) -> (r: usize)
        ensures
            r as int == self.cursor_view(),
    {
        self.cursor
    }
}

} // verus!
