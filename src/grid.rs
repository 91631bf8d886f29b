//! The cell grid and the generation step.

use vstd::prelude::*;

verus! {

/// One cell of the grid.
#[derive(Debug, Clone, Copy, PartialEq, Eq, Structural)]
pub struct Cell {
    pub alive: bool,
}

/// The grid as rows of cell states.
pub open spec fn cells_view(g: &Vec<Vec<Cell>>) -> Seq<Seq<bool>> {
    Seq::new(g@.len(), |i: int| Seq::new(g@[i]@.len(), |j: int| g@[i]@[j].alive))
}

/// Number of columns: the length of the first row (zero for a grid without rows).
pub open spec fn column_count(s: Seq<Seq<bool>>) -> nat {
    if s.len() == 0 {
        0
    } else {
        s[0].len()
    }
}

/// Every row has the same length.
pub open spec fn is_rectangular(s: Seq<Seq<bool>>) -> bool {
    forall|i: int| 0 <= i < s.len() ==> #[trigger] s[i].len() == column_count(s)
}

/// Whether position `(r, c)` contributes to a neighbour count: both coordinates
/// strictly above zero and strictly below the grid's dimensions, and the cell alive.
pub open spec fn counts_as_live(s: Seq<Seq<bool>>, r: int, c: int) -> bool {
    0 < r < s.len() && 0 < c < column_count(s) && s[r][c]
}

/// One for true, zero for false.
pub open spec fn indicator(b: bool) -> nat {
    if b {
        1
    } else {
        0
    }
}

/// Live neighbours of `(r, c)` among its eight surrounding positions; the cell
/// itself is never counted.
pub open spec fn neighbor_count(s: Seq<Seq<bool>>, r: int, c: int) -> nat {
    indicator(counts_as_live(s, r - 1, c - 1)) + indicator(counts_as_live(s, r - 1, c))
        + indicator(counts_as_live(s, r - 1, c + 1)) + indicator(counts_as_live(s, r, c - 1))
        + indicator(counts_as_live(s, r, c + 1)) + indicator(counts_as_live(s, r + 1, c - 1))
        + indicator(counts_as_live(s, r + 1, c)) + indicator(counts_as_live(s, r + 1, c + 1))
}

/// The rule: a live cell with fewer than two or more than three live neighbours
/// dies, a dead cell with exactly three comes alive, any other cell keeps its state.
pub open spec fn next_state(alive: bool, n: nat) -> bool {
    if alive && n < 2 {
        false
    } else if alive && n > 3 {
        false
    } else if !alive && n == 3 {
        true
    } else {
        alive
    }
}

/// The generation after `s`: same dimensions, each cell by the rule.
pub open spec fn next_generation(s: Seq<Seq<bool>>) -> Seq<Seq<bool>> {
    Seq::new(
        s.len(),
        |r: int| Seq::new(column_count(s), |c: int| next_state(s[r][c], neighbor_count(s, r, c))),
    )
}

/// Applies the rule to one cell, given its state and its live neighbour count.
pub fn next_cell_state(alive: bool, live_neighbors: u8) -> (r: bool)
    ensures
        r == next_state(alive, live_neighbors as nat),
{
    if alive && live_neighbors < 2 {
        false
    } else if alive && live_neighbors > 3 {
        false
    } else if !alive && live_neighbors == 3 {
        true
    } else {
        alive
    }
}

/// Whether position `(r, c)` is counted as a live neighbour.
fn counted_at(g: &Vec<Vec<Cell>>, r: usize, c: usize) -> (b: bool)
    requires
        is_rectangular(cells_view(g)),
    ensures
        b == counts_as_live(cells_view(g), r as int, c as int),
{
    let n = g.len();
    if r > 0 && r < n && c > 0 && c < g[0].len() {
        assert(cells_view(g)[r as int].len() == column_count(cells_view(g)));
        g[r][c].alive
    } else {
        false
    }
}

/// Counts the live neighbours of `(r, c)` under the grid's inclusion policy.
pub fn count_live_neighbors(g: &Vec<Vec<Cell>>, r: usize, c: usize) -> (k: u8)
    requires
        is_rectangular(cells_view(g)),
        r < g.len(),
        c < column_count(cells_view(g)),
    ensures
        k as nat == neighbor_count(cells_view(g), r as int, c as int),
        k <= 8,
{
    let m = g[0].len();
    assert(c + 1 <= m);
    let mut k: u8 = 0;
    if r > 0 && c > 0 && counted_at(g, r - 1, c - 1) {
        k = k + 1;
    }
    if r > 0 && counted_at(g, r - 1, c) {
        k = k + 1;
    }
    if r > 0 && counted_at(g, r - 1, c + 1) {
        k = k + 1;
    }
    if c > 0 && counted_at(g, r, c - 1) {
        k = k + 1;
    }
    if counted_at(g, r, c + 1) {
        k = k + 1;
    }
    if c > 0 && counted_at(g, r + 1, c - 1) {
        k = k + 1;
    }
    if counted_at(g, r + 1, c) {
        k = k + 1;
    }
    if counted_at(g, r + 1, c + 1) {
        k = k + 1;
    }
    k
}

/// Computes the next generation of a rectangular grid into a new grid of the
/// same dimensions, reading only the current one.
pub fn create_next_generation(curr_gen: &Vec<Vec<Cell>>) -> (next_gen: Vec<Vec<Cell>>)
    requires
        is_rectangular(cells_view(curr_gen)),
    ensures
        cells_view(&next_gen) == next_generation(cells_view(curr_gen)),
{
    let ghost s = cells_view(curr_gen);
    let n = curr_gen.len();
    let mut next_gen: Vec<Vec<Cell>> = Vec::new();
    if n == 0 {
        assert(cells_view(&next_gen) =~= next_generation(s));
        return next_gen;
    }
    let m = curr_gen[0].len();
    let mut i: usize = 0;
    while i < n
        invariant
            s == cells_view(curr_gen),
            is_rectangular(s),
            n == s.len(),
            n > 0,
            m == column_count(s),
            i <= n,
            next_gen@.len() == i,
            forall|k: int|
                0 <= k < i ==> #[trigger] cells_view(&next_gen)[k] == next_generation(s)[k],
        decreases n - i,
    {
        let mut row: Vec<Cell> = Vec::new();
        let mut j: usize = 0;
        assert(s[i as int].len() == m);
        while j < m
            invariant
                s == cells_view(curr_gen),
                is_rectangular(s),
                n == s.len(),
                m == column_count(s),
                i < n,
                j <= m,
                row@.len() == j,
                forall|k: int|
                    0 <= k < j ==> #[trigger] row@[k].alive == next_generation(s)[i as int][k],
            decreases m - j,
        {
            assert(s[i as int].len() == m);
            let alive = curr_gen[i][j].alive;
            let live = count_live_neighbors(curr_gen, i, j);
            let next = next_cell_state(alive, live);
            row.push(Cell { alive: next });
            j = j + 1;
        }
        let ghost old_next = next_gen;
        next_gen.push(row);
        assert(cells_view(&next_gen)[i as int] =~= next_generation(s)[i as int]);
        assert forall|k: int| 0 <= k < i + 1 implies #[trigger] cells_view(&next_gen)[k]
            == next_generation(s)[k] by {
            if k < i {
                assert(cells_view(&next_gen)[k] =~= cells_view(&old_next)[k]);
            }
        }
        i = i + 1;
    }
    assert(cells_view(&next_gen) =~= next_generation(s));
    next_gen
}

/// A grid of `rows` rows of `columns` dead cells.
pub fn dead_grid(rows: usize, columns: usize) -> (g: Vec<Vec<Cell>>)
    ensures
        cells_view(&g).len() == rows,
        forall|i: int| 0 <= i < rows ==> #[trigger] cells_view(&g)[i].len() == columns,
        forall|i: int, j: int| 0 <= i < rows && 0 <= j < columns ==> !#[trigger] cells_view(&g)[i][j],
{
    let mut g: Vec<Vec<Cell>> = Vec::new();
    let mut i: usize = 0;
    while i < rows
        invariant
            i <= rows,
            g@.len() == i,
            forall|k: int| 0 <= k < i ==> #[trigger] g@[k]@.len() == columns,
            forall|k: int, j: int| 0 <= k < i && 0 <= j < columns ==> !(#[trigger] g@[k]@[j]).alive,
        decreases rows - i,
    {
        let row: Vec<Cell> = vec![Cell { alive: false }; columns];
        g.push(row);
        i = i + 1;
    }
    g
}

/// The state of the cell at `(row, column)`.
pub fn is_alive(g: &Vec<Vec<Cell>>, row: usize, column: usize) -> (b: bool)
    requires
        row < cells_view(g).len(),
        column < cells_view(g)[row as int].len(),
    ensures
        b == cells_view(g)[row as int][column as int],
{
    g[row][column].alive
}

/// Sets the state of the cell at `(row, column)`, leaving every other cell as it was.
pub fn set_alive(g: &mut Vec<Vec<Cell>>, row: usize, column: usize, alive: bool)
    requires
        row < cells_view(old(g)).len(),
        column < cells_view(old(g))[row as int].len(),
    ensures
        cells_view(final(g)) == cells_view(old(g)).update(
            row as int,
            cells_view(old(g))[row as int].update(column as int, alive),
        ),
{
    let ghost before = cells_view(g);
    g[row][column] = Cell { alive };
    assert(cells_view(g)[row as int] =~= before[row as int].update(column as int, alive));
    assert(cells_view(g) =~= before.update(row as int, before[row as int].update(column as int, alive)));
}

/// The next generation has the dimensions of the current one and is rectangular.
pub proof fn lemma_next_generation_keeps_dimensions(s: Seq<Seq<bool>>)
    requires
        is_rectangular(s),
    ensures
        next_generation(s).len() == s.len(),
        column_count(next_generation(s)) == column_count(s),
        is_rectangular(next_generation(s)),
        forall|i: int| 0 <= i < s.len() ==> #[trigger] next_generation(s)[i].len() == s[i].len(),
{
}

/// A grid with no live cell stays without live cells.
pub proof fn lemma_all_dead_stays_dead(s: Seq<Seq<bool>>)
    requires
        is_rectangular(s),
        forall|i: int, j: int| 0 <= i < s.len() && 0 <= j < column_count(s) ==> !#[trigger] s[i][j],
    ensures
        forall|i: int, j: int|
            0 <= i < s.len() && 0 <= j < column_count(s) ==> !#[trigger] next_generation(s)[i][j],
{
    assert forall|i: int, j: int|
        0 <= i < s.len() && 0 <= j < column_count(s) implies !#[trigger] next_generation(s)[i][j] by {
        assert(!s[i][j]);
        assert(!counts_as_live(s, i - 1, j - 1));
        assert(!counts_as_live(s, i - 1, j));
        assert(!counts_as_live(s, i - 1, j + 1));
        assert(!counts_as_live(s, i, j - 1));
        assert(!counts_as_live(s, i, j + 1));
        assert(!counts_as_live(s, i + 1, j - 1));
        assert(!counts_as_live(s, i + 1, j));
        assert(!counts_as_live(s, i + 1, j + 1));
    }
}

/// A dead cell without counted live neighbours stays dead.
pub proof fn lemma_dead_without_neighbors_stays_dead(s: Seq<Seq<bool>>, r: int, c: int)
    requires
        is_rectangular(s),
        0 <= r < s.len(),
        0 <= c < column_count(s),
        !s[r][c],
        neighbor_count(s, r, c) == 0,
    ensures
        !next_generation(s)[r][c],
{
}

/// A live cell with five counted live neighbours dies.
pub proof fn lemma_overpopulated_cell_dies(s: Seq<Seq<bool>>, r: int, c: int)
    requires
        is_rectangular(s),
        0 <= r < s.len(),
        0 <= c < column_count(s),
        s[r][c],
        neighbor_count(s, r, c) == 5,
    ensures
        !next_generation(s)[r][c],
{
}

/// A dead cell comes alive with exactly three counted live neighbours, and stays
/// dead with two or four.
pub proof fn lemma_reproduction(s: Seq<Seq<bool>>, r: int, c: int)
    requires
        is_rectangular(s),
        0 <= r < s.len(),
        0 <= c < column_count(s),
        !s[r][c],
    ensures
        neighbor_count(s, r, c) == 3 ==> next_generation(s)[r][c],
        neighbor_count(s, r, c) == 2 ==> !next_generation(s)[r][c],
        neighbor_count(s, r, c) == 4 ==> !next_generation(s)[r][c],
{
}

} // verus!
