//! The grid engine: a fixed-size rectangular toroidal grid of boolean cell
//! states, double-buffered so that a generation step writes into the inactive
//! buffer and then swaps the two in constant time.

use vstd::prelude::*;
use fixedbitset::FixedBitSet;
use crate::bitset::{bits_of, bitset_contains, bitset_set, bitset_with_capacity};
use crate::random::random_alive;
use crate::rules::{
    cell_index, glyph, lemma_index_in_range, lemma_listed_extend, lemma_step_at, listed,
    neighbor_count, render_rows, row_prefix, step, toggled,
};
use crate::text::string_push;

verus! {

/// A toroidal Game-of-Life grid. `front` is the active buffer holding the
/// present generation; `back` is the scratch buffer that the next generation
/// is written into before the two are swapped.
pub struct Universe {
    size: usize,
    width: u32,
    height: u32,
    front: FixedBitSet,
    back: FixedBitSet,
}

impl Universe {
    /// A grid of the default dimensions with every cell independently
    /// randomized by the injected random source, alive with probability one
    /// half.
    pub fn new() -> (u: Universe)
        ensures
            u.wf(),
            u.spec_width() == 120,
            u.spec_height() == 120,
    {
        let width: u32 = 120;
        let height: u32 = 120;
        let size: usize = 14400;
        assert(size == (width as usize) * (height as usize));
        let mut front = bitset_with_capacity(size);
        let back = bitset_with_capacity(size);

        let mut i: usize = 0;
        while i < size
            invariant
                bits_of(front).len() == size,
                bits_of(back).len() == size,
                i <= size,
            decreases size - i,
        {
            let alive = random_alive();
            bitset_set(&mut front, i, alive);
            i = i + 1;
        }

        Universe { size, width, height, front, back }
    }

    /// Re-randomizes every cell of the active buffer via the random source,
    /// alive with probability one half. The dimensions are unchanged.
    pub fn reset(&mut self)
        requires
            old(self).wf(),
        ensures
            final(self).wf(),
            final(self).spec_width() == old(self).spec_width(),
            final(self).spec_height() == old(self).spec_height(),
    {
        let mut i: usize = 0;
        while i < self.size
            invariant
                self.wf(),
                self.width == old(self).width,
                self.height == old(self).height,
                self.size == old(self).size,
                i <= self.size,
            decreases self.size - i,
        {
            let alive = random_alive();
            bitset_set(&mut self.front, i, alive);
            i = i + 1;
        }
    }

    /// Marks one cell alive. The row and column are wrapped modulo the
    /// grid's height and width before indexing, so out-of-range inputs never
    /// fail: they wrap.
    pub fn set_alive(&mut self, row: u32, col: u32)
        requires
            old(self).wf(),
        ensures
            final(self).wf(),
            final(self).spec_width() == old(self).spec_width(),
            final(self).spec_height() == old(self).spec_height(),
            final(self).active() == old(self).active().update(
                cell_index(
                    old(self).spec_width(),
                    (row as nat) % old(self).spec_height(),
                    (col as nat) % old(self).spec_width(),
                ) as int,
                true,
            ),
    {
        let r = row % self.height();
        let c = col % self.width();
        let idx = self.get_index(r, c);
        bitset_set(&mut self.front, idx, true);
    }

    /// Flips the state of one cell of the active buffer. No wrapping is
    /// applied: the caller must supply in-range coordinates.
    pub fn toggle_cell(&mut self, row: u32, column: u32)
        requires
            old(self).wf(),
            row < old(self).spec_height(),
            column < old(self).spec_width(),
        ensures
            final(self).wf(),
            final(self).spec_width() == old(self).spec_width(),
            final(self).spec_height() == old(self).spec_height(),
            final(self).active() == toggled(
                old(self).active(),
                cell_index(old(self).spec_width(), row as nat, column as nat) as int,
            ),
    {
        let idx = self.get_index(row, column);
        let cell = !bitset_contains(&self.front, idx);
        bitset_set(&mut self.front, idx, cell);
    }

    /// Set the width of the universe.
    ///
    /// Resets all cells, in both buffers, to the dead state; nothing of the
    /// old grid is preserved or remapped.
    pub fn set_width(&mut self, width: u32)
        requires
            old(self).wf(),
            1 <= width,
            width * old(self).spec_height() <= usize::MAX,
        ensures
            final(self).wf(),
            final(self).spec_width() == width,
            final(self).spec_height() == old(self).spec_height(),
            forall|i: int| 0 <= i < final(self).active().len() ==> !final(self).active()[i],
    {
        let size = (width as usize) * (self.height as usize);
        self.width = width;
        self.size = size;
        self.front = bitset_with_capacity(size);
        self.back = bitset_with_capacity(size);
    }

    /// Set the height of the universe.
    ///
    /// Resets all cells, in both buffers, to the dead state; nothing of the
    /// old grid is preserved or remapped.
    pub fn set_height(&mut self, height: u32)
        requires
            old(self).wf(),
            1 <= height,
            old(self).spec_width() * height <= usize::MAX,
        ensures
            final(self).wf(),
            final(self).spec_width() == old(self).spec_width(),
            final(self).spec_height() == height,
            forall|i: int| 0 <= i < final(self).active().len() ==> !final(self).active()[i],
    {
        let size = (self.width as usize) * (height as usize);
        self.height = height;
        self.size = size;
        self.front = bitset_with_capacity(size);
        self.back = bitset_with_capacity(size);
    }

    /// Marks each listed cell alive in the active buffer, by row and column.
    /// No wrapping is applied: every listed pair must be in range. Cells not
    /// listed are unaffected, and duplicates are idempotent.
    pub fn set_cells(&mut self, cells: &[(u32, u32)])
        requires
            old(self).wf(),
            forall|k: int|
                0 <= k < cells@.len() ==> (#[trigger] cells@[k]).0 < old(self).spec_height()
                    && cells@[k].1 < old(self).spec_width(),
        ensures
            final(self).wf(),
            final(self).spec_width() == old(self).spec_width(),
            final(self).spec_height() == old(self).spec_height(),
            final(self).active().len() == old(self).active().len(),
            forall|i: int|
                0 <= i < final(self).active().len() ==> #[trigger] final(self).active()[i] == (old(
                    self,
                ).active()[i] || listed(cells@, old(self).spec_width(), i)),
    {
        let ghost orig = self.active();
        let ghost w = self.spec_width();
        let mut k: usize = 0;
        while k < cells.len()
            invariant
                self.wf(),
                self.width == old(self).width,
                self.height == old(self).height,
                self.size == old(self).size,
                k <= cells@.len(),
                self.active().len() == orig.len(),
                w == self.spec_width(),
                forall|j: int|
                    0 <= j < cells@.len() ==> (#[trigger] cells@[j]).0 < self.spec_height()
                        && cells@[j].1 < self.spec_width(),
                forall|i: int|
                    0 <= i < self.active().len() ==> self.active()[i] == (orig[i] || listed(
                        cells@.take(k as int),
                        w,
                        i,
                    )),
            decreases cells@.len() - k,
        {
            let (row, col) = cells[k];
            let idx = self.get_index(row, col);
            let ghost prev = self.active();
            proof {
                assert(forall|i: int|
                    0 <= i < prev.len() ==> prev[i] == (orig[i] || listed(
                        cells@.take(k as int),
                        w,
                        i,
                    )));
            }
            bitset_set(&mut self.front, idx, true);
            proof {
                assert(cells@.take(k + 1 as int).drop_last() =~= cells@.take(k as int));
                assert(cells@.take(k + 1 as int).last() == cells@[k as int]);
                assert forall|i: int|
                    0 <= i < self.active().len() implies self.active()[i] == (orig[i] || listed(
                    cells@.take(k + 1 as int),
                    w,
                    i,
                )) by {
                    lemma_listed_extend(cells@.take(k + 1 as int), w, i);
                    if i != idx {
                        assert(self.active()[i] == prev[i]);
                    }
                }
            }
            k = k + 1;
        }
        proof {
            assert(cells@.take(k as int) =~= cells@);
            assert forall|i: int|
                0 <= i < self.active().len() implies #[trigger] self.active()[i] == (old(
                self,
            ).active()[i] || listed(cells@, old(self).spec_width(), i)) by {
                assert(self.active()[i] == (orig[i] || listed(cells@.take(k as int), w, i)));
                assert(listed(cells@.take(k as int), w, i) == listed(
                    cells@,
                    old(self).spec_width(),
                    i,
                ));
            }
        }
    }

    /// The active buffer's cell states, as a read-only borrowed view for an
    /// external renderer: bit `i` holds the cell at row `i / width`, column
    /// `i % width`.
    pub fn cells(&self) -> (r: &FixedBitSet)
        ensures
            bits_of(*r) == self.active(),
    {
        &self.front
    }

    /// Get the dead and alive values of the entire universe.
    pub fn get_cells(&self) -> (r: &FixedBitSet)
        ensures
            bits_of(*r) == self.active(),
    {
        &self.front
    }

    /// The grid's width, as a mathematical integer.
    pub closed spec fn spec_width(self) -> nat {
        self.width as nat
    }

    /// The grid's height, as a mathematical integer.
    pub closed spec fn spec_height(self) -> nat {
        self.height as nat
    }

    /// The number of cells in the grid.
    pub open spec fn spec_size(self) -> nat {
        self.spec_width() * self.spec_height()
    }

    /// The present generation: the active buffer's cell states, row-major.
    pub closed spec fn active(self) -> Seq<bool> {
        bits_of(self.front)
    }

    /// Internal consistency: positive dimensions, the cell count matching
    /// them, and both buffers sized to hold exactly one state per cell.
    pub closed spec fn wf(self) -> bool {
        &&& 1 <= self.width
        &&& 1 <= self.height
        &&& self.size == self.spec_width() * self.spec_height()
        &&& bits_of(self.front).len() == self.size
        &&& bits_of(self.back).len() == self.size
    }

    /// What well-formedness guarantees to callers about the visible state.
    pub proof fn lemma_wf_facts(self)
        requires
            self.wf(),
        ensures
            self.active().len() == self.spec_size(),
            1 <= self.spec_width(),
            1 <= self.spec_height(),
            self.spec_size() <= usize::MAX,
    {
    }

    pub fn width(&self) -> (w: u32)
        ensures
            w == self.spec_width(),
    {
        self.width
    }

    pub fn height(&self) -> (h: u32)
        ensures
            h == self.spec_height(),
    {
        self.height
    }

    /// A human-readable text snapshot: the grid as `height` newline-terminated
    /// lines of `width` glyphs each, dead and alive cells rendered as open and
    /// filled squares, in row-major order.
    pub fn render(&self) -> (s: String)
        requires
            self.wf(),
        ensures
            s@ == render_rows(self.active(), self.spec_width(), self.spec_height()),
    {
        let ghost cellsv = self.active();
        let ghost w = self.spec_width();
        let mut s = String::new();
        proof {
            assert(s@ =~= render_rows(cellsv, w, 0));
        }
        let mut row: u32 = 0;
        while row < self.height
            invariant
                self.wf(),
                w == self.spec_width(),
                cellsv == self.active(),
                row <= self.spec_height(),
                s@ == render_rows(cellsv, w, row as nat),
            decreases self.height - row,
        {
            let mut col: u32 = 0;
            proof {
                assert(s@ =~= render_rows(cellsv, w, row as nat) + row_prefix(
                    cellsv,
                    w,
                    row as nat,
                    0,
                ));
            }
            while col < self.width
                invariant
                    self.wf(),
                    w == self.spec_width(),
                    cellsv == self.active(),
                    row < self.spec_height(),
                    col <= self.spec_width(),
                    s@ == render_rows(cellsv, w, row as nat) + row_prefix(
                        cellsv,
                        w,
                        row as nat,
                        col as nat,
                    ),
                decreases self.width - col,
            {
                let idx = self.get_index(row, col);
                let alive = bitset_contains(&self.front, idx);
                let g = if alive {
                    '◼'
                } else {
                    '◻'
                };
                string_push(&mut s, g);
                proof {
                    assert(g == glyph(cellsv[cell_index(w, row as nat, col as nat) as int]));
                    assert(s@ =~= render_rows(cellsv, w, row as nat) + row_prefix(
                        cellsv,
                        w,
                        row as nat,
                        (col + 1) as nat,
                    ));
                }
                col = col + 1;
            }
            string_push(&mut s, '\n');
            proof {
                assert(s@ =~= render_rows(cellsv, w, (row + 1) as nat));
            }
            row = row + 1;
        }
        s
    }

    /// Row-major position of an in-range cell in the buffers.
    fn get_index(&self, row: u32, column: u32) -> (idx: usize)
        requires
            self.wf(),
            row < self.spec_height(),
            column < self.spec_width(),
        ensures
            idx == cell_index(self.spec_width(), row as nat, column as nat),
            idx < self.spec_size(),
    {
        proof {
            lemma_index_in_range(self.spec_width(), self.spec_height(), row as nat, column as nat);
        }
        (row as usize) * (self.width as usize) + (column as usize)
    }

    /// The number of live cells among the eight toroidal neighbors of the
    /// cell at `row`, `column`, read from the active buffer. The wrap is
    /// computed per axis, at the zero edge and at the far edge.
    #[verifier::rlimit(50)]
    fn live_neighbor_count(&self, row: u32, column: u32) -> (count: u8)
        requires
            self.wf(),
            row < self.spec_height(),
            column < self.spec_width(),
        ensures
            count == neighbor_count(
                self.active(),
                self.spec_width(),
                self.spec_height(),
                row as nat,
                column as nat,
            ),
            count <= 8,
    {
        let mut count: u8 = 0;

        let north = if row == 0 {
            self.height - 1
        } else {
            row - 1
        };

        let south = if row == self.height - 1 {
            0
        } else {
            row + 1
        };

        let west = if column == 0 {
            self.width - 1
        } else {
            column - 1
        };

        let east = if column == self.width - 1 {
            0
        } else {
            column + 1
        };

        let nw = self.get_index(north, west);
        if bitset_contains(&self.front, nw) {
            count = count + 1;
        }

        let n = self.get_index(north, column);
        if bitset_contains(&self.front, n) {
            count = count + 1;
        }

        let ne = self.get_index(north, east);
        if bitset_contains(&self.front, ne) {
            count = count + 1;
        }

        let w = self.get_index(row, west);
        if bitset_contains(&self.front, w) {
            count = count + 1;
        }

        let e = self.get_index(row, east);
        if bitset_contains(&self.front, e) {
            count = count + 1;
        }

        let sw = self.get_index(south, west);
        if bitset_contains(&self.front, sw) {
            count = count + 1;
        }

        let s = self.get_index(south, column);
        if bitset_contains(&self.front, s) {
            count = count + 1;
        }

        let se = self.get_index(south, east);
        if bitset_contains(&self.front, se) {
            count = count + 1;
        }

        count
    }

    /// Advances the grid by one generation. Every cell's next state is
    /// computed from the same pre-tick snapshot, written into the inactive
    /// buffer, and the buffers are then swapped in constant time, so no
    /// partially updated generation is ever observable.
    pub fn tick(&mut self)
        requires
            old(self).wf(),
        ensures
            final(self).wf(),
            final(self).spec_width() == old(self).spec_width(),
            final(self).spec_height() == old(self).spec_height(),
            final(self).active() == step(
                old(self).active(),
                old(self).spec_width(),
                old(self).spec_height(),
            ),
    {
        let ghost orig = self.active();
        let ghost w = self.spec_width();
        let ghost h = self.spec_height();
        let width = self.width;
        let height = self.height;
        let mut row: u32 = 0;
        while row < height
            invariant
                self.wf(),
                self.width == width,
                self.height == height,
                self.size == old(self).size,
                self.active() == orig,
                w == width as nat,
                h == height as nat,
                row <= height,
                forall|i: int|
                    0 <= i < row * width ==> bits_of(self.back)[i] == step(orig, w, h)[i],
            decreases height - row,
        {
            let mut col: u32 = 0;
            while col < width
                invariant
                    self.wf(),
                    self.width == width,
                    self.height == height,
                    self.size == old(self).size,
                    self.active() == orig,
                    w == width as nat,
                    h == height as nat,
                    row < height,
                    col <= width,
                    forall|i: int|
                        0 <= i < row * width + col ==> bits_of(self.back)[i] == step(orig, w, h)[i],
                decreases width - col,
            {
                let idx = self.get_index(row, col);
                let alive = bitset_contains(&self.front, idx);
                let live_neighbors = self.live_neighbor_count(row, col);
                let cell = if alive {
                    live_neighbors == 2 || live_neighbors == 3
                } else {
                    live_neighbors == 3
                };
                let ghost prev_back = bits_of(self.back);
                bitset_set(&mut self.back, idx, cell);
                proof {
                    lemma_step_at(orig, w, h, row as nat, col as nat);
                    assert forall|i: int|
                        0 <= i < row * width + col + 1 implies bits_of(self.back)[i] == step(
                        orig,
                        w,
                        h,
                    )[i] by {
                        if i < idx {
                            assert(bits_of(self.back)[i] == prev_back[i]);
                        }
                    }
                }
                col = col + 1;
            }
            proof {
                assert((row + 1) * width == row * width + width) by (nonlinear_arith);
            }
            row = row + 1;
        }
        core::mem::swap(&mut self.front, &mut self.back);
        proof {
            assert(self.active() =~= step(orig, w, h));
        }
    }

    /// Sets every cell of the active buffer to dead.
    pub fn clear(&mut self)
        requires
            old(self).wf(),
        ensures
            final(self).wf(),
            final(self).spec_width() == old(self).spec_width(),
            final(self).spec_height() == old(self).spec_height(),
            forall|i: int| 0 <= i < final(self).active().len() ==> !final(self).active()[i],
    {
        let mut i: usize = 0;
        while i < self.size
            invariant
                self.wf(),
                self.width == old(self).width,
                self.height == old(self).height,
                self.back == old(self).back,
                self.size == old(self).size,
                i <= self.size,
                forall|j: int| 0 <= j < i ==> !self.active()[j],
            decreases self.size - i,
        {
            let ghost prev = self.active();
            bitset_set(&mut self.front, i, false);
            proof {
                assert forall|j: int| 0 <= j <= i implies !self.active()[j] by {
                    if j < i {
                        assert(self.active()[j] == prev[j]);
                    }
                }
            }
            i = i + 1;
        }
    }
}

} // verus!
