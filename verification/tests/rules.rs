use game_of_life::Game;

/// Builds a 3x3 grid whose centre has exactly `n` live neighbours, with the
/// centre cell itself dead (the centre's own state is passed to
/// `determine_new_state` separately).
fn grid_with_centre_neighbours(n: usize) -> Game {
    assert!(n <= 8);
    // The eight neighbour positions of the centre (1, 1), as (x, y).
    let neighbours = [(0, 0), (1, 0), (2, 0), (0, 1), (2, 1), (0, 2), (1, 2), (2, 2)];
    let mut rows = [['.'; 3]; 3];
    for &(x, y) in neighbours.iter().take(n) {
        rows[y][x] = '#';
    }
    let text = rows
        .iter()
        .map(|row| row.iter().collect::<String>())
        .collect::<Vec<String>>()
        .join("\n");
    Game::from(&text, '#').unwrap()
}

#[test]
fn rule_table_is_exhaustive() {
    for n in 0..=8 {
        let game = grid_with_centre_neighbours(n);
        assert_eq!(game.n_alive_neighbours_for(1, 1), n as i64);
        let next_alive = game.determine_new_state(true, 1, 1);
        let next_dead = game.determine_new_state(false, 1, 1);
        assert_eq!(next_alive, n == 2 || n == 3, "alive cell with {} neighbours", n);
        assert_eq!(next_dead, n == 3, "dead cell with {} neighbours", n);
    }
}

#[test]
fn dead_cell_with_three_neighbours_comes_alive() {
    let game = grid_with_centre_neighbours(3);
    assert!(game.determine_new_state(false, 1, 1));
}

#[test]
fn alive_cell_with_one_neighbour_dies() {
    let game = grid_with_centre_neighbours(1);
    assert!(!game.determine_new_state(true, 1, 1));
}

#[test]
fn alive_cell_with_four_neighbours_dies() {
    let game = grid_with_centre_neighbours(4);
    assert!(!game.determine_new_state(true, 1, 1));
}
