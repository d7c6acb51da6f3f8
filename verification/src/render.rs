//! Rendering a generation back to text.

use vstd::prelude::*;

use crate::grid::Game;

verus! {

/// One row as text: one character per cell, `alive` where the cell is live
/// and `dead` where it is not.
pub open spec fn render_row(row: Seq<bool>, alive: char, dead: char) -> Seq<char> {
    Seq::new(row.len(), |x: int| if row[x] { alive } else { dead })
}

/// The whole matrix as text: the rows rendered in order and joined by line
/// breaks, with no trailing break.
pub open spec fn render_grid(rows: Seq<Seq<bool>>, alive: char, dead: char) -> Seq<char>
    decreases rows.len(),
{
    if rows.len() == 0 {
        Seq::empty()
    } else if rows.len() == 1 {
        render_row(rows[0], alive, dead)
    } else {
        render_grid(rows.drop_last(), alive, dead) + seq!['\n'] + render_row(
            rows.last(),
            alive,
            dead,
        )
    }
}

/// The separator that stands before row `y`: a line break for every row but
/// the first.
spec fn row_sep(y: int) -> Seq<char> {
    if y > 0 {
        seq!['\n']
    } else {
        Seq::empty()
    }
}

/// Appending one more row to a rendering: the text of the first `y + 1` rows
/// is the text of the first `y`, the separator, and the new row.
proof fn lemma_render_grid_snoc(rows: Seq<Seq<bool>>, y: int, alive: char, dead: char)
    requires
        0 <= y < rows.len(),
    ensures
        render_grid(rows.take(y + 1), alive, dead) == render_grid(rows.take(y), alive, dead)
            + row_sep(y) + render_row(rows[y], alive, dead),
{
    let upto = rows.take(y + 1);
    assert(upto.last() == rows[y]);
    if y == 0 {
        assert(render_grid(rows.take(0), alive, dead) + row_sep(0) + render_row(
            rows[0],
            alive,
            dead,
        ) =~= render_row(rows[0], alive, dead));
    } else {
        assert(upto.drop_last() =~= rows.take(y));
    }
}

/// Relies on `String::push`: appends the given character to the end of the
/// string.
#[verifier::external_body]
fn push_char(s: &mut String, c: char)
    ensures
        final(s)@ == old(s)@.push(c),
{
    s.push(c);
}

/// Renders a generation as text, each live cell as `alive_char`, each dead
/// cell as `dead_char`, rows joined by line breaks.
pub fn game_as_string(game: &Game, alive_char: char, dead_char: char) -> (s: String)
    ensures
        s@ == render_grid(game@, alive_char, dead_char),
{
    let mut s = String::new();
    let height = game.cells.len();

    let mut y: usize = 0;
    while y < height
        invariant
            y <= height,
            height == game@.len(),
            s@ == render_grid(game@.take(y as int), alive_char, dead_char),
        decreases height - y,
    {
        if y > 0 {
            push_char(&mut s, '\n');
        }
        proof {
            assert(s@ =~= render_grid(game@.take(y as int), alive_char, dead_char) + row_sep(
                y as int,
            ));
        }

        let row_len = game.cells[y].len();
        let ghost row = game@[y as int];
        let mut x: usize = 0;
        while x < row_len
            invariant
                x <= row_len,
                y < height,
                height == game@.len(),
                row == game@[y as int],
                row_len == row.len(),
                s@ == render_grid(game@.take(y as int), alive_char, dead_char) + row_sep(y as int)
                    + render_row(row, alive_char, dead_char).take(x as int),
            decreases row_len - x,
        {
            let c = if game.cells[y][x] {
                alive_char
            } else {
                dead_char
            };
            push_char(&mut s, c);
            proof {
                assert(render_row(row, alive_char, dead_char).take(x + 1) =~= render_row(
                    row,
                    alive_char,
                    dead_char,
                ).take(x as int).push(c));
            }
            x += 1;
        }

        proof {
            lemma_render_grid_snoc(game@, y as int, alive_char, dead_char);
            assert(render_row(row, alive_char, dead_char).take(row_len as int) =~= render_row(
                row,
                alive_char,
                dead_char,
            ));
        }
        y += 1;
    }

    proof {
        assert(game@.take(height as int) =~= game@);
    }
    s
}

} // verus!
