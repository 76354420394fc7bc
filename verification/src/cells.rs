use vstd::prelude::*;
use vstd::map::*;

use crate::cell_data::{CellType, valid_cell_type};
use crate::direction::Direction;

verus! {

/// A typed, directed unit occupying one grid slot. A cell is a value, not
/// a reference: moving one copies it to a new slot and clears the old slot.
/// `updated` is a transient per-tick marker and is excluded from
/// behavioural equality.
#[derive(Debug, Clone, Copy, PartialEq, Eq, Structural)]
pub struct Cell {
    pub id: CellType,
    pub direction: Direction,
    pub updated: bool,
}

impl Cell {
    /// Behavioural equality: type and facing match; the per-tick
    /// `updated` flag does not count.
    pub open spec fn like(self, other: Cell) -> bool {
        self.id == other.id && self.direction == other.direction
    }

    /// The same cell with its per-tick flag cleared.
    pub open spec fn cleared(self) -> Cell {
        Cell { updated: false, ..self }
    }

    /// Builds a cell of a known kind with a cleared per-tick flag.
    /// Unknown tags are rejected at construction time; `try_new` is the
    /// run-time checked form.
    pub fn new(id: CellType, direction: Direction) -> (r: Cell)
        requires
            valid_cell_type(id),
        ensures
            r == (Cell { id, direction, updated: false }),
    {
        Cell { id, direction, updated: false }
    }

    /// Builds a cell, or returns `None` exactly when the tag names no
    /// known cell kind.
    pub fn try_new(id: CellType, direction: Direction) -> (r: Option<Cell>)
        ensures
            r is Some <==> valid_cell_type(id),
            r is Some ==> r->Some_0 == (Cell { id, direction, updated: false }),
    {
        if 1 <= id && id <= 9 {
            Some(Cell { id, direction, updated: false })
        } else {
            None
        }
    }

    pub fn id(&self) -> (r: CellType)
        ensures
            r == self.id,
    {
        self.id
    }

    pub fn direction(&self) -> (r: Direction)
        ensures
            r == self.direction,
    {
        self.direction
    }

    pub fn updated(&self) -> (r: bool)
        ensures
            r == self.updated,
    {
        self.updated
    }

    pub fn set_updated(&mut self, updated: bool)
        ensures
            *final(self) == (Cell { updated, ..*old(self) }),
    {
        self.updated = updated;
    }

    pub fn set_direction(&mut self, direction: Direction)
        ensures
            *final(self) == (Cell { direction, ..*old(self) }),
    {
        self.direction = direction;
    }
}

/// A fixed `width x height` rectangular field of optional cells plus a
/// tick counter. `(0, 0)` is the bottom-left slot and y grows upward.
/// Out-of-bounds reads return absent and out-of-bounds writes are no-ops:
/// the grid never panics on any coordinate.
pub struct Grid {
    pub width: usize,
    pub height: usize,
    pub tick_count: u64,
    pub cells: Vec<Option<Cell>>,
}

/// Index of a coordinate in row-major slot storage.
pub open spec fn row_major(w: int, x: int, y: int) -> int {
    y * w + x
}

proof fn lemma_row_major_in_range(w: int, h: int, x: int, y: int)
    requires
        0 <= x < w,
        0 <= y < h,
    ensures
        0 <= row_major(w, x, y) < w * h,
        row_major(w, x, y) < w * h - (w - 1 - x),
{
    assert(0 <= y * w + x && y * w + x + (w - 1 - x) < w * h) by (nonlinear_arith)
        requires
            0 <= x < w,
            0 <= y < h,
    ;
}

proof fn lemma_row_major_injective(w: int, x1: int, y1: int, x2: int, y2: int)
    requires
        0 <= x1 < w,
        0 <= x2 < w,
        0 <= y1,
        0 <= y2,
        !(x1 == x2 && y1 == y2),
    ensures
        row_major(w, x1, y1) != row_major(w, x2, y2),
{
    assert(y1 * w + x1 != y2 * w + x2) by (nonlinear_arith)
        requires
            0 <= x1 < w,
            0 <= x2 < w,
            0 <= y1,
            0 <= y2,
            !(x1 == x2 && y1 == y2),
    ;
}

impl Grid {
    /// Well-formed: the storage holds exactly `width * height` slots and
    /// both dimensions fit in signed coordinates.
    pub open spec fn wf(self) -> bool {
        &&& self.cells@.len() == self.width as int * self.height as int
        &&& self.width as int <= isize::MAX as int
        &&& self.height as int <= isize::MAX as int
    }

    pub open spec fn in_bounds_spec(self, x: int, y: int) -> bool {
        0 <= x < self.width as int && 0 <= y < self.height as int
    }

    /// The cell at a coordinate; absent slots and out-of-bounds
    /// coordinates both read as `None`.
    pub open spec fn at(self, x: int, y: int) -> Option<Cell> {
        if self.in_bounds_spec(x, y) {
            self.cells@[row_major(self.width as int, x, y)]
        } else {
            None
        }
    }

    /// The grid's contents as a map from occupied in-bounds coordinates
    /// to the cells there.
    pub open spec fn contents(self) -> Map<(int, int), Cell> {
        Map::new(
            |p: (int, int)| self.at(p.0, p.1) is Some,
            |p: (int, int)| self.at(p.0, p.1)->Some_0,
        )
    }

    /// Occupied coordinates are always in bounds.
    pub proof fn lemma_contents_in_bounds(self, x: int, y: int)
        ensures
            self.contents().contains_key((x, y)) ==> self.in_bounds_spec(x, y),
            self.contents().contains_key((x, y)) <==> self.at(x, y) is Some,
            self.contents().contains_key((x, y)) ==> self.at(x, y) == Some(
                self.contents()[(x, y)],
            ),
    {
    }

    /// An empty grid of the given dimensions, at tick zero.
    pub fn new(width: usize, height: usize) -> (r: Grid)
        requires
            width as int * height as int <= usize::MAX as int,
            width as int <= isize::MAX as int,
            height as int <= isize::MAX as int,
        ensures
            r.wf(),
            r.width == width,
            r.height == height,
            r.tick_count == 0,
            forall|x: int, y: int| r.at(x, y) is None,
            r.contents() == Map::<(int, int), Cell>::empty(),
    {
        let n: usize = width * height;
        let mut cells: Vec<Option<Cell>> = Vec::new();
        let mut i: usize = 0;
        while i < n
            invariant
                i <= n,
                cells@.len() == i as int,
                forall|k: int| 0 <= k < i as int ==> cells@[k] is None,
            decreases n - i,
        {
            cells.push(None);
            i += 1;
        }
        let r = Grid { width, height, tick_count: 0, cells };
        proof {
            assert(forall|x: int, y: int| r.at(x, y) is None) by {
                assert forall|x: int, y: int| r.at(x, y) is None by {
                    if r.in_bounds_spec(x, y) {
                        lemma_row_major_in_range(width as int, height as int, x, y);
                    }
                }
            }
            assert(r.contents() =~= Map::<(int, int), Cell>::empty());
        }
        r
    }

    /// Whether a coordinate lies inside the field.
    pub fn is_in_bounds(&self, x: isize, y: isize) -> (r: bool)
        ensures
            r == self.in_bounds_spec(x as int, y as int),
    {
        x >= 0 && (x as usize) < self.width && y >= 0 && (y as usize) < self.height
    }

    /// Bounds-checked read of one slot.
    pub fn get(&self, x: isize, y: isize) -> (r: Option<Cell>)
        requires
            self.wf(),
        ensures
            r == self.at(x as int, y as int),
    {
        if self.is_in_bounds(x, y) {
            proof {
                lemma_row_major_in_range(
                    self.width as int,
                    self.height as int,
                    x as int,
                    y as int,
                );
            }
            let n: usize = self.cells.len();
            let idx: usize = (y as usize) * self.width + (x as usize);
            self.cells[idx]
        } else {
            None
        }
    }

    /// Writes or clears one slot; a no-op outside the bounds.
    pub fn set_cell(&mut self, x: isize, y: isize, cell: Option<Cell>)
        requires
            old(self).wf(),
        ensures
            final(self).wf(),
            final(self).width == old(self).width,
            final(self).height == old(self).height,
            final(self).tick_count == old(self).tick_count,
            forall|a: int, b: int|
                final(self).at(a, b) == (if a == x as int && b == y as int
                    && old(self).in_bounds_spec(a, b) {
                    cell
                } else {
                    old(self).at(a, b)
                }),
            old(self).in_bounds_spec(x as int, y as int) ==> final(self).contents()
                == (match cell {
                Some(c) => old(self).contents().insert((x as int, y as int), c),
                None => old(self).contents().remove((x as int, y as int)),
            }),
            !old(self).in_bounds_spec(x as int, y as int) ==> *final(self) == *old(self),
    {
        if self.is_in_bounds(x, y) {
            proof {
                lemma_row_major_in_range(
                    self.width as int,
                    self.height as int,
                    x as int,
                    y as int,
                );
            }
            let n: usize = self.cells.len();
            let idx: usize = (y as usize) * self.width + (x as usize);
            self.cells.set(idx, cell);
            proof {
                let w = self.width as int;
                assert forall|a: int, b: int|
                    self.at(a, b) == (if a == x as int && b == y as int
                        && old(self).in_bounds_spec(a, b) {
                        cell
                    } else {
                        old(self).at(a, b)
                    }) by {
                    if self.in_bounds_spec(a, b) {
                        lemma_row_major_in_range(w, self.height as int, a, b);
                        if !(a == x as int && b == y as int) {
                            lemma_row_major_injective(w, a, b, x as int, y as int);
                        }
                    }
                }
                match cell {
                    Some(c) => {
                        assert(self.contents() =~= old(self).contents().insert(
                            (x as int, y as int),
                            c,
                        ));
                    },
                    None => {
                        assert(self.contents() =~= old(self).contents().remove(
                            (x as int, y as int),
                        ));
                    },
                }
            }
        }
    }

    /// Writes one slot; a no-op outside the bounds.
    pub fn set(&mut self, x: isize, y: isize, cell: Cell)
        requires
            old(self).wf(),
        ensures
            final(self).wf(),
            final(self).width == old(self).width,
            final(self).height == old(self).height,
            final(self).tick_count == old(self).tick_count,
            forall|a: int, b: int|
                final(self).at(a, b) == (if a == x as int && b == y as int
                    && old(self).in_bounds_spec(a, b) {
                    Some(cell)
                } else {
                    old(self).at(a, b)
                }),
            old(self).in_bounds_spec(x as int, y as int) ==> final(self).contents() == old(
                self,
            ).contents().insert((x as int, y as int), cell),
            !old(self).in_bounds_spec(x as int, y as int) ==> *final(self) == *old(self),
    {
        self.set_cell(x, y, Some(cell));
    }

    /// Removes and returns the cell at a coordinate; absent and
    /// out-of-bounds slots both yield `None`.
    pub fn take(&mut self, x: isize, y: isize) -> (r: Option<Cell>)
        requires
            old(self).wf(),
        ensures
            r == old(self).at(x as int, y as int),
            final(self).wf(),
            final(self).width == old(self).width,
            final(self).height == old(self).height,
            final(self).tick_count == old(self).tick_count,
            forall|a: int, b: int|
                final(self).at(a, b) == (if a == x as int && b == y as int
                    && old(self).in_bounds_spec(a, b) {
                    None
                } else {
                    old(self).at(a, b)
                }),
            old(self).in_bounds_spec(x as int, y as int) ==> final(self).contents() == old(
                self,
            ).contents().remove((x as int, y as int)),
            !old(self).in_bounds_spec(x as int, y as int) ==> *final(self) == *old(self),
    {
        let r = self.get(x, y);
        self.set_cell(x, y, None);
        r
    }

    /// Removes and discards the cell at a coordinate.
    pub fn delete(&mut self, x: isize, y: isize)
        requires
            old(self).wf(),
        ensures
            final(self).wf(),
            final(self).width == old(self).width,
            final(self).height == old(self).height,
            final(self).tick_count == old(self).tick_count,
            forall|a: int, b: int|
                final(self).at(a, b) == (if a == x as int && b == y as int
                    && old(self).in_bounds_spec(a, b) {
                    None
                } else {
                    old(self).at(a, b)
                }),
            old(self).in_bounds_spec(x as int, y as int) ==> final(self).contents() == old(
                self,
            ).contents().remove((x as int, y as int)),
            !old(self).in_bounds_spec(x as int, y as int) ==> *final(self) == *old(self),
    {
        self.set_cell(x, y, None);
    }
}

impl Clone for Grid {
    /// A deep copy of every slot, so a snapshot can be read while the
    /// live grid keeps being mutated.
    fn clone(&self) -> (r: Grid)
        ensures
            r.width == self.width,
            r.height == self.height,
            r.tick_count == self.tick_count,
            r.cells@ == self.cells@,
            forall|x: int, y: int| r.at(x, y) == self.at(x, y),
            r.contents() == self.contents(),
            r.wf() == self.wf(),
    {
        let mut cells: Vec<Option<Cell>> = Vec::new();
        let mut i: usize = 0;
        let n: usize = self.cells.len();
        while i < n
            invariant
                i <= n,
                n == self.cells@.len(),
                cells@.len() == i as int,
                forall|k: int| 0 <= k < i as int ==> cells@[k] == self.cells@[k],
            decreases n - i,
        {
            cells.push(self.cells[i]);
            i += 1;
        }
        proof {
            assert(cells@ =~= self.cells@);
        }
        let r = Grid {
            width: self.width,
            height: self.height,
            tick_count: self.tick_count,
            cells,
        };
        proof {
            assert(r.contents() =~= self.contents());
        }
        r
    }
}

} // verus!
