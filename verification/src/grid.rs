//! Orders in which the cells of a rectangular grid are visited.
//!
//! A cell is a pair `(column, row)`. The grid of `cols` by `rows` cells holds
//! the cells with `0 <= column < cols` and `0 <= row < rows`. Two orders are
//! defined here: the raster order and the spiral that starts at the centre
//! cell and walks outward ring by ring. Both are proved to visit every cell
//! of the grid exactly once.

use vstd::arithmetic::div_mod::lemma_fundamental_div_mod_converse;
use vstd::prelude::*;
use vstd::seq_lib::lemma_no_dup_in_concat;

verus! {

/// A grid cell, as `(column, row)`.
pub type Cell = (int, int);

/// Direction of a straight walk over the grid. Rows grow downward.
#[derive(Clone, Copy, Debug, PartialEq, Eq, Structural)]
pub enum Heading {
    Down,
    Left,
    Up,
    Right,
}

pub open spec fn max_of(a: int, b: int) -> int {
    if a >= b {
        a
    } else {
        b
    }
}

pub open spec fn min_of(a: int, b: int) -> int {
    if a <= b {
        a
    } else {
        b
    }
}

pub open spec fn abs_of(a: int) -> int {
    if a >= 0 {
        a
    } else {
        -a
    }
}

/// The cell reached from `start` after `i` steps in direction `heading`.
pub open spec fn step(start: Cell, heading: Heading, i: int) -> Cell {
    match heading {
        Heading::Down => (start.0, start.1 + i),
        Heading::Left => (start.0 - i, start.1),
        Heading::Up => (start.0, start.1 - i),
        Heading::Right => (start.0 + i, start.1),
    }
}

/// The `count` cells of a straight walk that begins at `start`; empty when
/// `count` is not positive.
pub open spec fn line(start: Cell, heading: Heading, count: int) -> Seq<Cell> {
    Seq::new(
        if count > 0 {
            count as nat
        } else {
            0
        },
        |i: int| step(start, heading, i),
    )
}

pub open spec fn in_grid(cell: Cell, cols: int, rows: int) -> bool {
    0 <= cell.0 < cols && 0 <= cell.1 < rows
}

/// The cell the spiral starts from.
pub open spec fn centre(cols: int, rows: int) -> Cell {
    (cols / 2, rows / 2)
}

/// The number of the square ring around the centre on which `cell` lies:
/// the larger of its column and row distances from the centre.
pub open spec fn ring_of(cell: Cell, cols: int, rows: int) -> int {
    max_of(abs_of(cell.0 - cols / 2), abs_of(cell.1 - rows / 2))
}

/// The number of the outermost ring that still meets the grid.
pub open spec fn last_ring(cols: int, rows: int) -> int {
    max_of(max_of(cols / 2, cols - 1 - cols / 2), max_of(rows / 2, rows - 1 - rows / 2))
}

/// Right side of ring `k`, walked downward, as far as it lies in the grid.
/// It ends in the ring's bottom right corner and leaves out the top right one.
pub open spec fn ring_right(cols: int, rows: int, k: int) -> Seq<Cell> {
    let c = centre(cols, rows);
    let top = max_of(0, c.1 - k + 1);
    let bottom = min_of(rows - 1, c.1 + k);
    if c.0 + k < cols {
        line((c.0 + k, top), Heading::Down, bottom - top + 1)
    } else {
        Seq::empty()
    }
}

/// Bottom side of ring `k`, walked leftward, as far as it lies in the grid.
/// It ends in the ring's bottom left corner.
pub open spec fn ring_bottom(cols: int, rows: int, k: int) -> Seq<Cell> {
    let c = centre(cols, rows);
    let right = min_of(cols - 1, c.0 + k - 1);
    let left = max_of(0, c.0 - k);
    if c.1 + k < rows {
        line((right, c.1 + k), Heading::Left, right - left + 1)
    } else {
        Seq::empty()
    }
}

/// Left side of ring `k`, walked upward, as far as it lies in the grid.
/// It ends in the ring's top left corner.
pub open spec fn ring_left(cols: int, rows: int, k: int) -> Seq<Cell> {
    let c = centre(cols, rows);
    let bottom = min_of(rows - 1, c.1 + k - 1);
    let top = max_of(0, c.1 - k);
    if c.0 - k >= 0 {
        line((c.0 - k, bottom), Heading::Up, bottom - top + 1)
    } else {
        Seq::empty()
    }
}

/// Top side of ring `k`, walked rightward, as far as it lies in the grid.
/// It ends in the ring's top right corner.
pub open spec fn ring_top(cols: int, rows: int, k: int) -> Seq<Cell> {
    let c = centre(cols, rows);
    let left = max_of(0, c.0 - k + 1);
    let right = min_of(cols - 1, c.0 + k);
    if c.1 - k >= 0 {
        line((left, c.1 - k), Heading::Right, right - left + 1)
    } else {
        Seq::empty()
    }
}

/// Ring `k` clipped to the grid: down the right side, leftward along the
/// bottom, up the left side, rightward along the top.
pub open spec fn ring(cols: int, rows: int, k: int) -> Seq<Cell> {
    ring_right(cols, rows, k) + ring_bottom(cols, rows, k) + ring_left(cols, rows, k) + ring_top(
        cols,
        rows,
        k,
    )
}

/// The centre cell followed by the rings `1..=k`, each clipped to the grid.
pub open spec fn spiral_rings(cols: int, rows: int, k: nat) -> Seq<Cell>
    decreases k,
{
    if k == 0 {
        seq![centre(cols, rows)]
    } else {
        spiral_rings(cols, rows, (k - 1) as nat) + ring(cols, rows, k as int)
    }
}

/// All cells of the grid in spiral order. An empty grid has no cells.
pub open spec fn spiral(cols: int, rows: int) -> Seq<Cell> {
    if cols <= 0 || rows <= 0 {
        Seq::empty()
    } else {
        spiral_rings(cols, rows, last_ring(cols, rows) as nat)
    }
}

/// The first `rows` rows of a grid `cols` wide, top to bottom, each row left
/// to right.
pub open spec fn raster(cols: int, rows: nat) -> Seq<Cell>
    decreases rows,
{
    if rows == 0 {
        Seq::empty()
    } else {
        raster(cols, (rows - 1) as nat) + line((0, rows - 1), Heading::Right, cols)
    }
}

/// `cells` holds exactly the cells of `region`, each of them once.
pub open spec fn enumerates(cells: Seq<Cell>, region: spec_fn(Cell) -> bool) -> bool {
    &&& cells.no_duplicates()
    &&& forall|c: Cell| #[trigger] cells.contains(c) <==> region(c)
}

/// Whether `cell` is one of the `count` cells of the straight walk from
/// `start`, said by its coordinates.
pub open spec fn on_line(cell: Cell, start: Cell, heading: Heading, count: int) -> bool {
    match heading {
        Heading::Down => cell.0 == start.0 && start.1 <= cell.1 < start.1 + count,
        Heading::Left => cell.1 == start.1 && start.0 - count < cell.0 <= start.0,
        Heading::Up => cell.0 == start.0 && start.1 - count < cell.1 <= start.1,
        Heading::Right => cell.1 == start.1 && start.0 <= cell.0 < start.0 + count,
    }
}

/// A straight walk visits the cells between its two ends, each once.
pub proof fn lemma_line_enumerates(start: Cell, heading: Heading, count: int)
    ensures
        enumerates(line(start, heading, count), |c: Cell| on_line(c, start, heading, count)),
{
    let s = line(start, heading, count);
    assert forall|c: Cell| #[trigger] s.contains(c) <==> on_line(c, start, heading, count) by {
        if s.contains(c) {
            let i = choose|i: int| 0 <= i < s.len() && s[i] == c;
            assert(c == step(start, heading, i));
        }
        if on_line(c, start, heading, count) {
            let i = match heading {
                Heading::Down => c.1 - start.1,
                Heading::Left => start.0 - c.0,
                Heading::Up => start.1 - c.1,
                Heading::Right => c.0 - start.0,
            };
            assert(s[i] == c);
        }
    }
}

/// Two walks that share no cell, one after the other, visit the cells of
/// both, each once.
pub proof fn lemma_concat_cells(a: Seq<Cell>, b: Seq<Cell>)
    requires
        a.no_duplicates(),
        b.no_duplicates(),
        forall|c: Cell| !(#[trigger] a.contains(c) && b.contains(c)),
    ensures
        (a + b).no_duplicates(),
        forall|c: Cell| #[trigger] (a + b).contains(c) <==> a.contains(c) || b.contains(c),
{
    let s = a + b;
    assert forall|i: int, j: int| 0 <= i < a.len() && 0 <= j < b.len() implies a[i] != b[j] by {
        assert(a.contains(a[i]));
        assert(b.contains(b[j]));
    }
    lemma_no_dup_in_concat(a, b);
    assert forall|c: Cell| #[trigger] s.contains(c) <==> a.contains(c) || b.contains(c) by {
        if s.contains(c) {
            let i = choose|i: int| 0 <= i < s.len() && s[i] == c;
            if i < a.len() {
                assert(a[i] == c);
            } else {
                assert(b[i - a.len()] == c);
            }
        }
        if a.contains(c) {
            let i = choose|i: int| 0 <= i < a.len() && a[i] == c;
            assert(s[i] == c);
        }
        if b.contains(c) {
            let j = choose|j: int| 0 <= j < b.len() && b[j] == c;
            assert(s[a.len() + j] == c);
        }
    }
}

/// Ring `k` clipped to the grid holds exactly the cells of the grid that lie
/// on ring `k`, each once.
pub proof fn lemma_ring_enumerates(cols: int, rows: int, k: int)
    requires
        k >= 1,
    ensures
        enumerates(
            ring(cols, rows, k),
            |c: Cell| in_grid(c, cols, rows) && ring_of(c, cols, rows) == k,
        ),
{
    let c0 = centre(cols, rows);
    let right = ring_right(cols, rows, k);
    let bottom = ring_bottom(cols, rows, k);
    let left = ring_left(cols, rows, k);
    let top = ring_top(cols, rows, k);
    lemma_line_enumerates(
        (c0.0 + k, max_of(0, c0.1 - k + 1)),
        Heading::Down,
        min_of(rows - 1, c0.1 + k) - max_of(0, c0.1 - k + 1) + 1,
    );
    lemma_line_enumerates(
        (min_of(cols - 1, c0.0 + k - 1), c0.1 + k),
        Heading::Left,
        min_of(cols - 1, c0.0 + k - 1) - max_of(0, c0.0 - k) + 1,
    );
    lemma_line_enumerates(
        (c0.0 - k, min_of(rows - 1, c0.1 + k - 1)),
        Heading::Up,
        min_of(rows - 1, c0.1 + k - 1) - max_of(0, c0.1 - k) + 1,
    );
    lemma_line_enumerates(
        (max_of(0, c0.0 - k + 1), c0.1 - k),
        Heading::Right,
        min_of(cols - 1, c0.0 + k) - max_of(0, c0.0 - k + 1) + 1,
    );
    assert forall|c: Cell| #[trigger] right.contains(c) <==> in_grid(c, cols, rows) && c.0 - c0.0 == k
        && 1 - k <= c.1 - c0.1 <= k by {}
    assert forall|c: Cell| #[trigger] bottom.contains(c) <==> in_grid(c, cols, rows) && c.1 - c0.1
        == k && -k <= c.0 - c0.0 <= k - 1 by {}
    assert forall|c: Cell| #[trigger] left.contains(c) <==> in_grid(c, cols, rows) && c.0 - c0.0
        == -k && -k <= c.1 - c0.1 <= k - 1 by {}
    assert forall|c: Cell| #[trigger] top.contains(c) <==> in_grid(c, cols, rows) && c.1 - c0.1
        == -k && 1 - k <= c.0 - c0.0 <= k by {}
    lemma_concat_cells(right, bottom);
    lemma_concat_cells(right + bottom, left);
    lemma_concat_cells(right + bottom + left, top);
}

/// The centre and the rings `1..=k` hold exactly the cells of the grid that
/// lie on one of the rings `0..=k`, each once.
pub proof fn lemma_spiral_rings_enumerates(cols: int, rows: int, k: nat)
    requires
        cols > 0,
        rows > 0,
    ensures
        enumerates(
            spiral_rings(cols, rows, k),
            |c: Cell| in_grid(c, cols, rows) && ring_of(c, cols, rows) <= k,
        ),
    decreases k,
{
    let s = spiral_rings(cols, rows, k);
    if k == 0 {
        assert(s[0] == centre(cols, rows));
        assert forall|c: Cell| #[trigger] s.contains(c) <==> in_grid(c, cols, rows) && ring_of(
            c,
            cols,
            rows,
        ) <= 0 by {
            if in_grid(c, cols, rows) && ring_of(c, cols, rows) <= 0 {
                assert(s[0] == c);
            }
        }
    } else {
        let inner = spiral_rings(cols, rows, (k - 1) as nat);
        let outer = ring(cols, rows, k as int);
        lemma_spiral_rings_enumerates(cols, rows, (k - 1) as nat);
        lemma_ring_enumerates(cols, rows, k as int);
        lemma_concat_cells(inner, outer);
    }
}

/// The spiral visits every cell of the grid exactly once.
pub proof fn lemma_spiral_enumerates(cols: int, rows: int)
    ensures
        enumerates(spiral(cols, rows), |c: Cell| in_grid(c, cols, rows)),
{
    let s = spiral(cols, rows);
    if cols <= 0 || rows <= 0 {
        assert forall|c: Cell| #[trigger] s.contains(c) <==> in_grid(c, cols, rows) by {}
    } else {
        lemma_spiral_rings_enumerates(cols, rows, last_ring(cols, rows) as nat);
        assert forall|c: Cell| #[trigger] s.contains(c) <==> in_grid(c, cols, rows) by {
            if in_grid(c, cols, rows) {
                assert(ring_of(c, cols, rows) <= last_ring(cols, rows));
            }
        }
    }
}

/// The first `rows` rows in raster order hold every cell of those rows
/// exactly once.
pub proof fn lemma_raster_enumerates(cols: int, rows: nat)
    ensures
        enumerates(raster(cols, rows), |c: Cell| in_grid(c, cols, rows as int)),
    decreases rows,
{
    let s = raster(cols, rows);
    if rows == 0 {
        assert forall|c: Cell| #[trigger] s.contains(c) <==> in_grid(c, cols, rows as int) by {}
    } else {
        let above = raster(cols, (rows - 1) as nat);
        let last = line((0, rows - 1), Heading::Right, cols);
        lemma_raster_enumerates(cols, (rows - 1) as nat);
        lemma_line_enumerates((0, rows - 1), Heading::Right, cols);
        lemma_concat_cells(above, last);
    }
}

/// In raster order the cell number `i` is the one in column `i % cols` of
/// row `i / cols`, and there are `cols * rows` cells.
pub proof fn lemma_raster_at(cols: int, rows: nat, i: int)
    requires
        cols > 0,
        0 <= i < cols * rows,
    ensures
        raster(cols, rows).len() == cols * rows,
        raster(cols, rows)[i] == (i % cols, i / cols),
    decreases rows,
{
    assert(cols * 0 == 0) by (nonlinear_arith);
    if rows > 0 {
        let above = raster(cols, (rows - 1) as nat);
        let last = line((0, rows - 1), Heading::Right, cols);
        lemma_raster_len(cols, (rows - 1) as nat);
        assert(cols * rows == cols * (rows - 1) + cols) by (nonlinear_arith);
        assert(raster(cols, rows) == above + last);
        if i < cols * (rows - 1) {
            lemma_raster_at(cols, (rows - 1) as nat, i);
            assert(raster(cols, rows)[i] == above[i]);
        } else {
            let j = i - cols * (rows - 1);
            assert(raster(cols, rows)[i] == last[j]);
            assert(last[j] == (j, rows - 1));
            assert(i == (rows - 1) * cols + j) by (nonlinear_arith)
                requires
                    j == i - cols * (rows - 1),
            ;
            lemma_fundamental_div_mod_converse(i, cols, rows - 1, j);
        }
    }
}

/// The first `rows` rows of a grid hold `cols * rows` cells.
pub proof fn lemma_raster_len(cols: int, rows: nat)
    requires
        cols >= 0,
    ensures
        raster(cols, rows).len() == cols * rows,
    decreases rows,
{
    assert(cols * 0 == 0) by (nonlinear_arith);
    if rows > 0 {
        lemma_raster_len(cols, (rows - 1) as nat);
        assert(cols * rows == cols * (rows - 1) + cols) by (nonlinear_arith);
    }
}

/// Two walks that visit the same cells, each cell once, are equally long.
pub proof fn lemma_same_cells_same_length(a: Seq<Cell>, b: Seq<Cell>)
    requires
        a.no_duplicates(),
        b.no_duplicates(),
        forall|c: Cell| #[trigger] a.contains(c) <==> b.contains(c),
    ensures
        a.len() == b.len(),
{
    a.unique_seq_to_set();
    b.unique_seq_to_set();
    assert(a.to_set() =~= b.to_set());
}

} // verus!
