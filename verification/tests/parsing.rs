use game_of_life::{Game, GridError};

#[test]
fn parses_three_by_three() {
    let game = Game::from("##.\n.#.\n...", '#').unwrap();
    assert_eq!(game.cells.len(), 3);
    for row in &game.cells {
        assert_eq!(row.len(), 3);
    }
    // Live cells exactly at (x, y) = (0, 0), (1, 0), (1, 1).
    for y in 0..3 {
        for x in 0..3 {
            let expect_alive = (x, y) == (0, 0) || (x, y) == (1, 0) || (x, y) == (1, 1);
            assert_eq!(game.cells[y][x], expect_alive, "cell ({}, {})", x, y);
        }
    }
}

#[test]
fn blank_lines_do_not_become_rows() {
    let game = Game::from("##.\n\n.#.\n...", '#').unwrap();
    assert_eq!(game.cells.len(), 3);
    let plain = Game::from("##.\n.#.\n...", '#').unwrap();
    assert_eq!(game.cells, plain.cells);
}

#[test]
fn leading_and_trailing_blank_lines_are_dropped() {
    let game = Game::from("\n\n##\n##\n\n", '#').unwrap();
    assert_eq!(game.cells.len(), 2);
    assert_eq!(game.cells[0], vec![true, true]);
    assert_eq!(game.cells[1], vec![true, true]);
}

#[test]
fn alive_marker_is_configurable() {
    let game = Game::from("o.\n.o", 'o').unwrap();
    assert_eq!(game.cells[0], vec![true, false]);
    assert_eq!(game.cells[1], vec![false, true]);
    // Any character other than the marker is a dead cell.
    let game = Game::from("ox\n#o", 'o').unwrap();
    assert_eq!(game.cells[0], vec![true, false]);
    assert_eq!(game.cells[1], vec![false, true]);
}

#[test]
fn empty_input_is_rejected() {
    assert_eq!(Game::from("", '#').unwrap_err(), GridError::EmptyGrid);
    assert_eq!(Game::from("\n\n\n", '#').unwrap_err(), GridError::EmptyGrid);
}

#[test]
fn ragged_rows_are_rejected() {
    assert_eq!(Game::from("##\n#", '#').unwrap_err(), GridError::RaggedRows);
    assert_eq!(Game::from("#\n##\n#", '#').unwrap_err(), GridError::RaggedRows);
}

#[test]
fn parsed_grid_is_well_formed() {
    let game = Game::from(".#.\n#.#", '#').unwrap();
    assert!(game.is_well_formed());
    assert_eq!(game.get_dimensions(), (3, 2));
}
