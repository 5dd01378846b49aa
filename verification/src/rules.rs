//! The mathematical model of the simulation: row-major indexing, toroidal
//! neighbor counting, the transition rule for one cell, and the whole-grid
//! generation step, together with the laws that hold of them.

use vstd::prelude::*;

verus! {

/// The next state of one cell under the standard rule: a live cell survives
/// with two or three live neighbors, a dead cell is born with exactly three,
/// and every other cell is dead in the next generation.
pub open spec fn next_state(alive: bool, live_neighbors: nat) -> bool {
    if alive {
        live_neighbors == 2 || live_neighbors == 3
    } else {
        live_neighbors == 3
    }
}

/// Row-major position of the cell at `row`, `col` in a grid `width` wide.
pub open spec fn cell_index(width: nat, row: nat, col: nat) -> nat {
    row * width + col
}

/// One step toward zero along an axis of length `bound`, wrapping to the far
/// edge at zero.
pub open spec fn wrap_dec(i: nat, bound: nat) -> nat
    recommends
        0 < bound,
        i < bound,
{
    if i == 0 {
        (bound - 1) as nat
    } else {
        (i - 1) as nat
    }
}

/// One step away from zero along an axis of length `bound`, wrapping to zero
/// at the far edge.
pub open spec fn wrap_inc(i: nat, bound: nat) -> nat
    recommends
        0 < bound,
        i < bound,
{
    if i + 1 == bound {
        0
    } else {
        i + 1
    }
}

/// 1 when the cell at `row`, `col` is alive, 0 otherwise.
pub open spec fn count_bit(cells: Seq<bool>, width: nat, row: nat, col: nat) -> nat {
    if cells[cell_index(width, row, col) as int] {
        1
    } else {
        0
    }
}

/// The number of live cells among the eight toroidal neighbors of `row`,
/// `col`: the wrap is computed per axis, so every cell has exactly eight
/// neighbors whatever its position.
pub open spec fn neighbor_count(
    cells: Seq<bool>,
    width: nat,
    height: nat,
    row: nat,
    col: nat,
) -> nat {
    let north = wrap_dec(row, height);
    let south = wrap_inc(row, height);
    let west = wrap_dec(col, width);
    let east = wrap_inc(col, width);
    count_bit(cells, width, north, west) + count_bit(cells, width, north, col) + count_bit(
        cells,
        width,
        north,
        east,
    ) + count_bit(cells, width, row, west) + count_bit(cells, width, row, east) + count_bit(
        cells,
        width,
        south,
        west,
    ) + count_bit(cells, width, south, col) + count_bit(cells, width, south, east)
}

/// The row addressed by the row-major position `i` in a grid `width` wide.
pub open spec fn row_of(width: nat, i: int) -> nat {
    (i / (width as int)) as nat
}

/// The column addressed by the row-major position `i` in a grid `width` wide.
pub open spec fn col_of(width: nat, i: int) -> nat {
    (i % (width as int)) as nat
}

/// The whole next generation: every cell's next state is computed from the
/// same prior snapshot `cells`.
pub open spec fn step(cells: Seq<bool>, width: nat, height: nat) -> Seq<bool>
    recommends
        0 < width,
{
    Seq::new(
        width * height,
        |i: int|
            next_state(
                cells[i],
                neighbor_count(cells, width, height, row_of(width, i), col_of(width, i)),
            ),
    )
}

/// The grid with exactly one cell flipped.
pub open spec fn toggled(cells: Seq<bool>, i: int) -> Seq<bool> {
    cells.update(i, !cells[i])
}

/// The glyph that renders one cell: a filled square for a live cell, an open
/// square for a dead one.
pub open spec fn glyph(alive: bool) -> char {
    if alive {
        '◼'
    } else {
        '◻'
    }
}

/// The glyphs of the first `count` cells of one row, in column order.
pub open spec fn row_prefix(cells: Seq<bool>, width: nat, row: nat, count: nat) -> Seq<char> {
    Seq::new(count, |c: int| glyph(cells[cell_index(width, row, c as nat) as int]))
}

/// One rendered row: `width` glyphs terminated by a newline.
pub open spec fn row_glyphs(cells: Seq<bool>, width: nat, row: nat) -> Seq<char> {
    row_prefix(cells, width, row, width).push('\n')
}

/// The first `rows` rendered rows of the grid, concatenated.
pub open spec fn render_rows(cells: Seq<bool>, width: nat, rows: nat) -> Seq<char>
    decreases rows,
{
    if rows == 0 {
        Seq::empty()
    } else {
        render_rows(cells, width, (rows - 1) as nat) + row_glyphs(cells, width, (rows - 1) as nat)
    }
}

/// Whether some entry of `list`, read as a row and column pair, addresses
/// the row-major position `i` in a grid `width` wide.
pub open spec fn listed(list: Seq<(u32, u32)>, width: nat, i: int) -> bool {
    exists|k: int|
        0 <= k < list.len() && cell_index(width, list[k].0 as nat, list[k].1 as nat) == i
}

/// Extending a list of cell coordinates by one entry marks exactly that
/// entry's position in addition to the positions already listed.
pub proof fn lemma_listed_extend(list: Seq<(u32, u32)>, width: nat, i: int)
    requires
        1 <= list.len(),
    ensures
        listed(list, width, i) == (listed(list.drop_last(), width, i) || cell_index(
            width,
            list.last().0 as nat,
            list.last().1 as nat,
        ) == i),
{
    let l = list.drop_last();
    if listed(list, width, i) {
        let k = choose|k: int|
            0 <= k < list.len() && cell_index(width, list[k].0 as nat, list[k].1 as nat) == i;
        if k < list.len() - 1 {
            assert(l[k] == list[k]);
            assert(listed(l, width, i));
        } else {
            assert(list[k] == list.last());
        }
    }
    if listed(l, width, i) {
        let k = choose|k: int|
            0 <= k < l.len() && cell_index(width, l[k].0 as nat, l[k].1 as nat) == i;
        assert(list[k] == l[k]);
        assert(listed(list, width, i));
    }
    if cell_index(width, list.last().0 as nat, list.last().1 as nat) == i {
        assert(cell_index(
            width,
            list[list.len() - 1].0 as nat,
            list[list.len() - 1].1 as nat,
        ) == i);
        assert(listed(list, width, i));
    }
}

/// Row-major indexing stays inside the grid: any in-range row and column
/// address a position below `width * height`.
pub proof fn lemma_index_in_range(width: nat, height: nat, row: nat, col: nat)
    by (nonlinear_arith)
    requires
        row < height,
        col < width,
    ensures
        row * width + col < width * height,
{
}

/// Row-major indexing is invertible: dividing an index by the width recovers
/// the row, and the remainder recovers the column.
pub proof fn lemma_index_round_trip(width: nat, row: nat, col: nat)
    requires
        0 < width,
        col < width,
    ensures
        row_of(width, cell_index(width, row, col) as int) == row,
        col_of(width, cell_index(width, row, col) as int) == col,
{
    vstd::arithmetic::div_mod::lemma_fundamental_div_mod_converse(
        cell_index(width, row, col) as int,
        width as int,
        row as int,
        col as int,
    );
}

/// The generation step, read cell by cell: the entry of `step` at an in-range
/// row and column is exactly the transition rule applied to that cell's prior
/// state and its toroidal neighbor count.
pub proof fn lemma_step_at(cells: Seq<bool>, width: nat, height: nat, row: nat, col: nat)
    requires
        row < height,
        col < width,
    ensures
        cell_index(width, row, col) < width * height,
        step(cells, width, height)[cell_index(width, row, col) as int] == next_state(
            cells[cell_index(width, row, col) as int],
            neighbor_count(cells, width, height, row, col),
        ),
{
    lemma_index_in_range(width, height, row, col);
    lemma_index_round_trip(width, row, col);
}

/// Every row-major position of the grid comes from exactly one in-range row
/// and column, recovered by division and remainder.
pub proof fn lemma_position_row_col(width: nat, height: nat, i: int)
    requires
        0 < width,
        0 <= i < width * height,
    ensures
        row_of(width, i) < height,
        col_of(width, i) < width,
        cell_index(width, row_of(width, i), col_of(width, i)) == i,
{
    vstd::arithmetic::div_mod::lemma_fundamental_div_mod(i, width as int);
    vstd::arithmetic::div_mod::lemma_mod_bound(i, width as int);
    vstd::arithmetic::div_mod::lemma_div_pos_is_pos(i, width as int);
    vstd::arithmetic::div_mod::lemma_multiply_divide_lt(i, width as int, height as int);
    vstd::arithmetic::mul::lemma_mul_is_commutative(i / (width as int), width as int);
}

/// An all-dead grid has no live neighbors anywhere.
pub proof fn lemma_neighbor_count_of_dead(
    cells: Seq<bool>,
    width: nat,
    height: nat,
    row: nat,
    col: nat,
)
    requires
        0 < width,
        0 < height,
        row < height,
        col < width,
        cells.len() == width * height,
        forall|i: int| 0 <= i < cells.len() ==> !cells[i],
    ensures
        neighbor_count(cells, width, height, row, col) == 0,
{
    let north = wrap_dec(row, height);
    let south = wrap_inc(row, height);
    let west = wrap_dec(col, width);
    let east = wrap_inc(col, width);
    lemma_index_in_range(width, height, north, west);
    lemma_index_in_range(width, height, north, col);
    lemma_index_in_range(width, height, north, east);
    lemma_index_in_range(width, height, row, west);
    lemma_index_in_range(width, height, row, east);
    lemma_index_in_range(width, height, south, west);
    lemma_index_in_range(width, height, south, col);
    lemma_index_in_range(width, height, south, east);
}

/// No spontaneous life: stepping an all-dead grid yields an all-dead grid.
pub proof fn lemma_no_spontaneous_life(cells: Seq<bool>, width: nat, height: nat)
    requires
        0 < width,
        0 < height,
        cells.len() == width * height,
        forall|i: int| 0 <= i < cells.len() ==> !cells[i],
    ensures
        step(cells, width, height).len() == cells.len(),
        forall|i: int| 0 <= i < cells.len() ==> !step(cells, width, height)[i],
{
    assert forall|i: int| 0 <= i < cells.len() implies !step(cells, width, height)[i] by {
        lemma_position_row_col(width, height, i);
        lemma_neighbor_count_of_dead(cells, width, height, row_of(width, i), col_of(width, i));
    }
}

/// Birth: a dead cell is alive after the step exactly when it has three live
/// neighbors; with any other count, two included, it stays dead.
pub proof fn lemma_birth_rule(cells: Seq<bool>, width: nat, height: nat, row: nat, col: nat)
    requires
        row < height,
        col < width,
        !cells[cell_index(width, row, col) as int],
    ensures
        step(cells, width, height)[cell_index(width, row, col) as int] == (neighbor_count(
            cells,
            width,
            height,
            row,
            col,
        ) == 3),
{
    lemma_step_at(cells, width, height, row, col);
}

/// Survival: a live cell is alive after the step exactly when it has two or
/// three live neighbors; with 0, 1, or more than 3 it dies.
pub proof fn lemma_survival_rule(cells: Seq<bool>, width: nat, height: nat, row: nat, col: nat)
    requires
        row < height,
        col < width,
        cells[cell_index(width, row, col) as int],
    ensures
        step(cells, width, height)[cell_index(width, row, col) as int] == (neighbor_count(
            cells,
            width,
            height,
            row,
            col,
        ) == 2 || neighbor_count(cells, width, height, row, col) == 3),
{
    lemma_step_at(cells, width, height, row, col);
}

/// Neighbor counting wraps toroidally: a live cell in the far corner, at the
/// last row and column, is counted as a diagonal neighbor of the origin.
pub proof fn lemma_wraps_toroidally(cells: Seq<bool>, width: nat, height: nat)
    requires
        0 < width,
        0 < height,
        cells.len() == width * height,
        cells[cell_index(width, (height - 1) as nat, (width - 1) as nat) as int],
    ensures
        1 <= neighbor_count(cells, width, height, 0, 0),
{
    assert(wrap_dec(0, height) == (height - 1) as nat);
    assert(wrap_dec(0, width) == (width - 1) as nat);
    assert(count_bit(cells, width, (height - 1) as nat, (width - 1) as nat) == 1);
}

/// Toggling a cell twice returns the grid to its original state.
pub proof fn lemma_toggle_round_trip(cells: Seq<bool>, i: int)
    requires
        0 <= i < cells.len(),
    ensures
        toggled(toggled(cells, i), i) == cells,
{
    assert(toggled(toggled(cells, i), i) =~= cells);
}

/// The rendering has one slot per cell plus one newline per row.
pub proof fn lemma_render_len(cells: Seq<bool>, width: nat, rows: nat)
    ensures
        render_rows(cells, width, rows).len() == rows * (width + 1),
    decreases rows,
{
    if rows == 0 {
    } else {
        let prev = (rows - 1) as nat;
        lemma_render_len(cells, width, prev);
        assert(render_rows(cells, width, rows).len() == prev * (width + 1) + (width + 1));
        assert((prev + 1) * (width + 1) == prev * (width + 1) + (width + 1)) by (nonlinear_arith);
    }
}

/// An all-dead grid renders as all-dead glyphs: every glyph slot of the
/// rendering holds the dead glyph.
pub proof fn lemma_render_of_dead(cells: Seq<bool>, width: nat, rows: nat, row: nat, col: nat)
    requires
        cells.len() == width * rows,
        forall|i: int| 0 <= i < cells.len() ==> !cells[i],
        row < rows,
        col < width,
    ensures
        render_rows(cells, width, rows)[(row * (width + 1) + col) as int] == glyph(false),
{
    lemma_render_layout(cells, width, rows, row, col);
    lemma_index_in_range(width, rows, row, col);
}

/// The rendering consists of exactly `rows` lines of exactly `width` glyphs:
/// within any line, each of the first `width` slots holds the glyph of the
/// corresponding cell, and the slot after them holds the newline.
pub proof fn lemma_render_layout(cells: Seq<bool>, width: nat, rows: nat, row: nat, col: nat)
    requires
        row < rows,
        col <= width,
    ensures
        row * (width + 1) + col < rows * (width + 1),
        col < width ==> render_rows(cells, width, rows)[(row * (width + 1) + col) as int] == glyph(
            cells[cell_index(width, row, col) as int],
        ),
        col == width ==> render_rows(cells, width, rows)[(row * (width + 1) + col) as int] == '\n',
    decreases rows,
{
    lemma_index_in_range(width + 1, rows, row, col);
    lemma_render_len(cells, width, rows);
    let prev = (rows - 1) as nat;
    lemma_render_len(cells, width, prev);
    if row == prev {
        assert(render_rows(cells, width, rows)[(row * (width + 1) + col) as int] == row_glyphs(
            cells,
            width,
            prev,
        )[col as int]);
    } else {
        lemma_render_layout(cells, width, prev, row, col);
        assert(render_rows(cells, width, rows)[(row * (width + 1) + col) as int] == render_rows(
            cells,
            width,
            prev,
        )[(row * (width + 1) + col) as int]);
    }
}

} // verus!
