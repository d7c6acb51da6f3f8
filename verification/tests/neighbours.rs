use game_of_life::Game;

#[test]
fn corner_with_no_live_neighbours_counts_zero() {
    let game = Game::from("...\n...\n...", '#').unwrap();
    assert_eq!(game.n_alive_neighbours_for(0, 0), 0);
}

#[test]
fn corner_with_one_diagonal_neighbour_counts_one() {
    let game = Game::from("...\n.#.\n...", '#').unwrap();
    assert_eq!(game.n_alive_neighbours_for(0, 0), 1);
}

#[test]
fn all_eight_neighbours_count_exactly_eight() {
    // Every cell of a 3x3 grid is alive: the centre has all eight
    // neighbours live, and no off-grid position is ever counted.
    let game = Game::from("###\n###\n###", '#').unwrap();
    assert_eq!(game.n_alive_neighbours_for(1, 1), 8);
    // The corners see only their three on-grid neighbours.
    assert_eq!(game.n_alive_neighbours_for(0, 0), 3);
    assert_eq!(game.n_alive_neighbours_for(2, 0), 3);
    assert_eq!(game.n_alive_neighbours_for(0, 2), 3);
    assert_eq!(game.n_alive_neighbours_for(2, 2), 3);
    // The edge midpoints see five.
    assert_eq!(game.n_alive_neighbours_for(1, 0), 5);
    assert_eq!(game.n_alive_neighbours_for(0, 1), 5);
    assert_eq!(game.n_alive_neighbours_for(2, 1), 5);
    assert_eq!(game.n_alive_neighbours_for(1, 2), 5);
}

#[test]
fn cell_itself_does_not_count() {
    let game = Game::from("#..\n...\n...", '#').unwrap();
    assert_eq!(game.n_alive_neighbours_for(0, 0), 0);
}
