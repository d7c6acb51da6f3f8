//! The cell matrix and the state-transition rules of the automaton.

use vstd::prelude::*;

use crate::parse::{lemma_scan_rows_nonempty, lemma_scan_rows_step, parsed_rows, scan_rows};

verus! {

/// One generation of the automaton: `cells[y][x]` is `true` exactly when the
/// cell in row `y`, column `x` is alive.  The matrix is never mutated after
/// construction; `evolve` returns a fresh `Game`.
#[derive(Debug, PartialEq, Eq)]
pub struct Game {
    pub cells: Vec<Vec<bool>>,
}

/// Why an input text was rejected as a grid.
#[derive(Clone, Copy, Debug, PartialEq, Eq, Structural)]
pub enum GridError {
    /// The text holds no non-empty line, so the grid would have no rows.
    EmptyGrid,
    /// Some non-empty line differs in length from the first one, so the rows
    /// would not form a rectangle.
    RaggedRows,
}

/// The cell matrix of a vector of rows, as a mathematical value.
pub open spec fn rows_view(cells: Seq<Vec<bool>>) -> Seq<Seq<bool>> {
    Seq::new(cells.len(), |y: int| cells[y]@)
}

impl View for Game {
    type V = Seq<Seq<bool>>;

    open spec fn view(&self) -> Seq<Seq<bool>> {
        rows_view(self.cells@)
    }
}

/// The number of columns: the length of the first row.
pub open spec fn width_of(rows: Seq<Seq<bool>>) -> int {
    rows[0].len() as int
}

/// The number of rows.
pub open spec fn height_of(rows: Seq<Seq<bool>>) -> int {
    rows.len() as int
}

/// Every row is as long as the first one.
pub open spec fn rectangular(rows: Seq<Seq<bool>>) -> bool {
    forall|y: int| 0 <= y < rows.len() ==> #[trigger] rows[y].len() == rows[0].len()
}

/// A well-formed cell matrix: at least one row, at least one column, and all
/// rows of equal length.
pub open spec fn grid_wf(rows: Seq<Seq<bool>>) -> bool {
    &&& rows.len() > 0
    &&& rows[0].len() > 0
    &&& rectangular(rows)
}

/// Whether `(x, y)` lies on the grid; there is no wraparound, positions off
/// the edge are simply not part of the grid.
pub open spec fn in_bounds(rows: Seq<Seq<bool>>, x: int, y: int) -> bool {
    0 <= x < width_of(rows) && 0 <= y < height_of(rows)
}

/// The state of the cell at column `x`, row `y`.
pub open spec fn cell_at(rows: Seq<Seq<bool>>, x: int, y: int) -> bool {
    rows[y][x]
}

/// 1 if `(x, y)` lies on the grid and holds a live cell, else 0.  A position
/// off the grid counts as permanently dead.
pub open spec fn live_at(rows: Seq<Seq<bool>>, x: int, y: int) -> int {
    if in_bounds(rows, x, y) && cell_at(rows, x, y) {
        1
    } else {
        0
    }
}

/// The number of live cells among the eight neighbours of `(x, y)`: the
/// positions at offsets `{-1, 0, 1}` squared, the cell itself excluded.
pub open spec fn live_neighbours(rows: Seq<Seq<bool>>, x: int, y: int) -> int {
    live_at(rows, x - 1, y - 1) + live_at(rows, x, y - 1) + live_at(rows, x + 1, y - 1)
        + live_at(rows, x - 1, y) + live_at(rows, x + 1, y) + live_at(rows, x - 1, y + 1)
        + live_at(rows, x, y + 1) + live_at(rows, x + 1, y + 1)
}

/// The rule table: a live cell stays alive with two or three live
/// neighbours; a dead cell comes alive with exactly three; every other cell
/// is dead in the next generation.
pub open spec fn next_state(alive: bool, n: int) -> bool {
    if alive {
        n == 2 || n == 3
    } else {
        n == 3
    }
}

/// One synchronous generation step: every new cell is derived solely from
/// the previous generation's cell values.
pub open spec fn step(rows: Seq<Seq<bool>>) -> Seq<Seq<bool>> {
    Seq::new(
        rows.len(),
        |y: int|
            Seq::new(
                rows[0].len(),
                |x: int| next_state(cell_at(rows, x, y), live_neighbours(rows, x, y)),
            ),
    )
}

impl Game {
    /// The matrix is well formed: non-empty and rectangular.
    pub open spec fn wf(&self) -> bool {
        grid_wf(self@)
    }

    /// In a well-formed grid, every stored row is as long as the first one.
    proof fn lemma_row_len(&self, j: int)
        requires
            self.wf(),
            0 <= j < self@.len(),
        ensures
            self.cells@[j]@ == self@[j],
            self.cells@[j]@.len() == width_of(self@),
    {
        assert(self@[j] == self.cells@[j]@);
        assert(self@[j].len() == self@[0].len());
    }

    /// Decides well-formedness at run time.
    pub fn is_well_formed(&self) -> (b: bool)
        ensures
            b == self.wf(),
    {
        if self.cells.len() == 0 {
            return false;
        }
        let w = self.cells[0].len();
        if w == 0 {
            return false;
        }
        let mut y: usize = 1;
        while y < self.cells.len()
            invariant
                1 <= y <= self.cells@.len(),
                w == self@[0].len(),
                forall|j: int| 0 <= j < y ==> #[trigger] self@[j].len() == w,
            decreases self.cells@.len() - y,
        {
            if self.cells[y].len() != w {
                proof {
                    assert(self@[y as int] == self.cells@[y as int]@);
                }
                return false;
            }
            y += 1;
        }
        true
    }

    /// Builds generation zero from a text: each non-empty line is one row,
    /// top to bottom, and each character of a line one cell, left to right,
    /// live exactly where the character equals `alive_char`.  Empty lines
    /// are dropped entirely.  A text with no non-empty line is rejected as
    /// `EmptyGrid`, and one whose non-empty lines differ in length as
    /// `RaggedRows`, rather than leaving behind a matrix that neighbour
    /// counting could read out of range.
    pub fn from(input: &str, alive_char: char) -> (r: Result<Game, GridError>)
        ensures
            match r {
                Ok(g) => g@ == parsed_rows(input@, alive_char) && g.wf(),
                Err(GridError::EmptyGrid) => parsed_rows(input@, alive_char).len() == 0,
                Err(GridError::RaggedRows) => parsed_rows(input@, alive_char).len() > 0
                    && !rectangular(parsed_rows(input@, alive_char)),
            },
    {
        let n = input.unicode_len();
        let mut rows: Vec<Vec<bool>> = Vec::new();
        let mut cur: Vec<bool> = Vec::new();
        let mut i: usize = 0;

        proof {
            assert(input@.skip(0) =~= input@);
            assert(rows_view(rows@) =~= Seq::<Seq<bool>>::empty());
        }
        while i < n
            invariant
                i <= n,
                n == input@.len(),
                parsed_rows(input@, alive_char) == rows_view(rows@) + scan_rows(
                    cur@,
                    input@.skip(i as int),
                    alive_char,
                ),
            decreases n - i,
        {
            let c = input.get_char(i);
            proof {
                lemma_scan_rows_step(cur@, input@, i as int, alive_char);
            }
            if c == '\n' {
                if cur.len() > 0 {
                    let ghost old_rows = rows@;
                    let ghost finished = cur@;
                    rows.push(cur);
                    cur = Vec::new();
                    proof {
                        assert(rows_view(rows@) =~= rows_view(old_rows).push(finished));
                        assert(rows_view(old_rows) + (seq![finished] + scan_rows(
                            Seq::empty(),
                            input@.skip(i + 1),
                            alive_char,
                        )) =~= rows_view(rows@) + scan_rows(cur@, input@.skip(i + 1), alive_char));
                    }
                } else {
                    proof {
                        assert(cur@ =~= Seq::<bool>::empty());
                    }
                }
            } else {
                cur.push(c == alive_char);
            }
            i += 1;
        }

        proof {
            assert(input@.skip(n as int) =~= Seq::<char>::empty());
        }
        if cur.len() > 0 {
            let ghost old_rows = rows@;
            let ghost finished = cur@;
            rows.push(cur);
            proof {
                assert(rows_view(rows@) =~= rows_view(old_rows) + seq![finished]);
            }
        } else {
            proof {
                assert(cur@ =~= Seq::<bool>::empty());
                assert(rows_view(rows@) + Seq::<Seq<bool>>::empty() =~= rows_view(rows@));
            }
        }
        assert(rows_view(rows@) == parsed_rows(input@, alive_char));

        if rows.len() == 0 {
            return Err(GridError::EmptyGrid);
        }

        let w = rows[0].len();
        let mut k: usize = 1;
        while k < rows.len()
            invariant
                1 <= k <= rows@.len(),
                w == rows@[0]@.len(),
                rows_view(rows@) == parsed_rows(input@, alive_char),
                forall|j: int| 0 <= j < k ==> #[trigger] rows@[j]@.len() == w,
            decreases rows@.len() - k,
        {
            if rows[k].len() != w {
                proof {
                    let p = parsed_rows(input@, alive_char);
                    assert(p[k as int] == rows@[k as int]@);
                    assert(p[0] == rows@[0]@);
                    assert(!rectangular(p));
                }
                return Err(GridError::RaggedRows);
            }
            k += 1;
        }

        let g = Game { cells: rows };
        proof {
            let p = parsed_rows(input@, alive_char);
            lemma_scan_rows_nonempty(Seq::empty(), input@, alive_char);
            assert(p[0] == g.cells@[0]@);
            assert(p[0].len() > 0);
            assert forall|j: int| 0 <= j < p.len() implies #[trigger] p[j].len() == p[0].len() by {
                assert(p[j] == g.cells@[j]@);
            }
        }
        Ok(g)
    }

    /// The matrix dimensions as `(width, height)`.
    pub fn get_dimensions(&self) -> (d: (usize, usize))
        requires
            self@.len() > 0,
        ensures
            d.0 == width_of(self@),
            d.1 == height_of(self@),
    {
        let height = self.cells.len();
        let width = self.cells[0].len();
        (width, height)
    }

    /// Counts the live cells among the eight neighbours of `(x, y)`.
    /// Positions outside the grid are excluded from the count, never read.
    pub fn n_alive_neighbours_for(&self, x: usize, y: usize) -> (n: i64)
        requires
            self.wf(),
            x < width_of(self@),
            y < height_of(self@),
        ensures
            n == live_neighbours(self@, x as int, y as int),
            0 <= n <= 8,
    {
        let (width, height) = self.get_dimensions();
        let mut count: i64 = 0;

        proof {
            assert forall|j: int|
                0 <= j < self.cells@.len() implies #[trigger] self.cells@[j]@.len() == width_of(
                self@,
            ) by {
                self.lemma_row_len(j);
            }
        }

        if y > 0 && x > 0 && self.cells[y - 1][x - 1] {
            count += 1;
        }
        if y > 0 && self.cells[y - 1][x] {
            count += 1;
        }
        if y > 0 && x + 1 < width && self.cells[y - 1][x + 1] {
            count += 1;
        }
        if x > 0 && self.cells[y][x - 1] {
            count += 1;
        }
        if x + 1 < width && self.cells[y][x + 1] {
            count += 1;
        }
        if y + 1 < height && x > 0 && self.cells[y + 1][x - 1] {
            count += 1;
        }
        if y + 1 < height && self.cells[y + 1][x] {
            count += 1;
        }
        if y + 1 < height && x + 1 < width && self.cells[y + 1][x + 1] {
            count += 1;
        }

        count
    }

    /// Applies the rule table to the cell at `(x, y)`, whose current state is
    /// `cell`.
    pub fn determine_new_state(&self, cell: bool, x: usize, y: usize) -> (alive: bool)
        requires
            self.wf(),
            x < width_of(self@),
            y < height_of(self@),
        ensures
            alive == next_state(cell, live_neighbours(self@, x as int, y as int)),
    {
        match (cell, self.n_alive_neighbours_for(x, y)) {
            (true, 2) => true,
            (true, 3) => true,
            (false, 3) => true,
            _ => false,
        }
    }

    /// Computes the next generation.  The result is a fresh grid of the same
    /// dimensions whose every cell is the rule table applied to the previous
    /// generation; the previous generation is left untouched.
    pub fn evolve(&self) -> (next: Game)
        requires
            self.wf(),
        ensures
            next@ == step(self@),
            next.wf(),
            next@.len() == self@.len(),
            forall|y: int| 0 <= y < self@.len() ==> #[trigger] next@[y].len() == self@[y].len(),
    {
        let (width, height) = self.get_dimensions();
        let mut new_cells: Vec<Vec<bool>> = Vec::new();

        let mut y: usize = 0;
        while y < height
            invariant
                self.wf(),
                width == width_of(self@),
                height == height_of(self@),
                y <= height,
                new_cells@.len() == y,
                forall|j: int| 0 <= j < y ==> #[trigger] new_cells@[j]@ == step(self@)[j],
            decreases height - y,
        {
            let mut row: Vec<bool> = Vec::new();
            let mut x: usize = 0;
            while x < width
                invariant
                    self.wf(),
                    width == width_of(self@),
                    height == height_of(self@),
                    y < height,
                    x <= width,
                    row@.len() == x,
                    forall|i: int| 0 <= i < x ==> #[trigger] row@[i] == step(self@)[y as int][i],
                decreases width - x,
            {
                proof {
                    self.lemma_row_len(y as int);
                }
                let cur = self.cells[y][x];
                let next_cell = self.determine_new_state(cur, x, y);
                row.push(next_cell);
                x += 1;
            }
            proof {
                assert(row@ =~= step(self@)[y as int]);
            }
            new_cells.push(row);
            y += 1;
        }

        let next = Game { cells: new_cells };
        proof {
            assert(next@ =~~= step(self@));
            lemma_step_preserves_dimensions(self@);
        }
        next
    }
}

/// Dimension preservation: one step of evolution keeps the height, the
/// length of every row, and well-formedness of the grid.
pub proof fn lemma_step_preserves_dimensions(rows: Seq<Seq<bool>>)
    requires
        grid_wf(rows),
    ensures
        step(rows).len() == rows.len(),
        forall|y: int| 0 <= y < rows.len() ==> #[trigger] step(rows)[y].len() == rows[y].len(),
        grid_wf(step(rows)),
{
    assert forall|y: int| 0 <= y < rows.len() implies #[trigger] step(rows)[y].len()
        == rows[y].len() by {
        assert(rows[y].len() == rows[0].len());
    }
}

/// Determinism: evolution is a function of the cell matrix alone, so two
/// grids with equal cell matrices evolve to equal cell matrices.  Together
/// with the contract of `Game::evolve`, whose result is pinned to
/// `step(self@)`, this makes repeated runs on equal grids agree.
pub proof fn lemma_evolve_deterministic(a: Seq<Seq<bool>>, b: Seq<Seq<bool>>)
    requires
        a == b,
    ensures
        step(a) == step(b),
{
}

} // verus!
