use maze_game::Cell;
use maze_game::Direction;
use maze_game::Game;
use maze_game::Grid;
use maze_game::MazeError;
use maze_game::carve_path;
use maze_game::generate;
use maze_game::is_reachable;
use maze_game::gen::place_coins;

fn count_cells_of(grid: &Grid, kind: Cell) -> usize {
    let mut n: usize = 0;
    for r in 0..grid.height {
        for c in 0..grid.width {
            if grid.get(r, c).unwrap() == kind {
                n += 1;
            }
        }
    }
    n
}

#[test]
fn generate_connects_start_and_exit() {
    for (w, h) in [(3usize, 3usize), (5, 4), (9, 9), (30, 20)] {
        let g = generate(w, h).unwrap();
        assert_eq!(g.width, w);
        assert_eq!(g.height, h);
        assert!(is_reachable(&g, (1, 1), (h - 2, w - 2)));
        assert_eq!(g.get(1, 1).unwrap(), Cell::Player);
        if h > 3 || w > 3 {
            assert_eq!(g.get(h - 2, w - 2).unwrap(), Cell::Exit);
        }
    }
}

#[test]
fn generate_bounds_coin_count() {
    let g = generate(30, 20).unwrap();
    assert!(count_cells_of(&g, Cell::Coin) <= 15);
    let g = generate(7, 5).unwrap();
    assert!(count_cells_of(&g, Cell::Coin) <= 3);
}

#[test]
fn generate_rejects_small_dimensions() {
    assert!(matches!(generate(2, 5), Err(MazeError::InvalidDimensions)));
    assert!(matches!(generate(5, 2), Err(MazeError::InvalidDimensions)));
    assert!(matches!(generate(0, 0), Err(MazeError::InvalidDimensions)));
}

#[test]
fn grid_new_rejects_small_dimensions() {
    assert!(matches!(Grid::new(2, 3), Err(MazeError::InvalidDimensions)));
    assert!(matches!(Grid::new(3, 2), Err(MazeError::InvalidDimensions)));
}

#[test]
fn grid_checks_bounds() {
    let mut g = Grid::new(4, 4).unwrap();
    assert!(matches!(g.get(4, 0), Err(MazeError::OutOfBounds)));
    assert!(matches!(g.get(0, 4), Err(MazeError::OutOfBounds)));
    assert!(matches!(g.set(7, 1, Cell::Path), Err(MazeError::OutOfBounds)));
    assert_eq!(g.get(1, 2).unwrap(), Cell::Wall);
    g.set(1, 2, Cell::Path).unwrap();
    assert_eq!(g.get(1, 2).unwrap(), Cell::Path);
}

#[test]
fn move_is_noop_against_walls() {
    let mut g = Grid::new(5, 5).unwrap();
    g.set(1, 1, Cell::Player).unwrap();
    g.set(3, 3, Cell::Exit).unwrap();
    let mut game = Game::new(g, (1, 1), (3, 3));
    for dir in [Direction::Up, Direction::Down, Direction::Left, Direction::Right] {
        assert!(!game.move_player(dir));
        assert_eq!(game.player_position(), (1, 1));
        assert_eq!(game.move_count(), 0);
        assert_eq!(game.coin_count(), 0);
    }
    assert_eq!(game.grid().get(1, 1).unwrap(), Cell::Player);
}

#[test]
fn move_is_noop_on_boundary() {
    let mut g = Grid::new(3, 3).unwrap();
    g.set(0, 0, Cell::Player).unwrap();
    g.set(2, 2, Cell::Exit).unwrap();
    let mut game = Game::new(g, (0, 0), (2, 2));
    assert!(!game.move_player(Direction::Up));
    assert_eq!(game.player_position(), (0, 0));
    assert_eq!(game.move_count(), 0);
    assert!(!game.move_player(Direction::Left));
    assert_eq!(game.player_position(), (0, 0));
    assert_eq!(game.move_count(), 0);
    assert_eq!(game.coin_count(), 0);
}

#[test]
fn coins_are_collected_exactly_once() {
    let mut g = Grid::new(5, 3).unwrap();
    g.set(1, 1, Cell::Player).unwrap();
    g.set(1, 2, Cell::Coin).unwrap();
    g.set(1, 3, Cell::Path).unwrap();
    let mut game = Game::new(g, (1, 1), (1, 3));
    assert!(!game.move_player(Direction::Right));
    assert_eq!(game.coin_count(), 1);
    assert_eq!(game.move_count(), 1);
    assert_eq!(game.player_position(), (1, 2));
    assert_eq!(game.grid().get(1, 1).unwrap(), Cell::Path);
    assert!(game.move_player(Direction::Right));
    assert_eq!(game.grid().get(1, 2).unwrap(), Cell::Path);
    assert!(!game.move_player(Direction::Left));
    assert_eq!(game.coin_count(), 1);
    assert_eq!(game.move_count(), 3);
}

#[test]
fn reaching_the_exit_is_reported() {
    let mut g = Grid::new(3, 3).unwrap();
    g.set(1, 1, Cell::Player).unwrap();
    g.set(1, 2, Cell::Exit).unwrap();
    let mut game = Game::new(g, (1, 1), (1, 2));
    assert!(game.move_player(Direction::Right));
    assert_eq!(game.player_position(), game.exit_position());
    assert_eq!(game.player_position(), (1, 2));
    assert_eq!(game.move_count(), 1);
}

#[test]
fn is_reachable_separates_isolated_cells() {
    let mut g = Grid::new(5, 5).unwrap();
    g.set(1, 1, Cell::Path).unwrap();
    g.set(3, 3, Cell::Path).unwrap();
    assert!(!is_reachable(&g, (1, 1), (3, 3)));
    assert!(is_reachable(&g, (1, 1), (1, 1)));
    g.set(2, 1, Cell::Path).unwrap();
    g.set(3, 1, Cell::Path).unwrap();
    g.set(3, 2, Cell::Path).unwrap();
    assert!(is_reachable(&g, (1, 1), (3, 3)));
}

#[test]
fn carve_path_repairs_a_walled_grid() {
    let mut g = Grid::new(7, 7).unwrap();
    carve_path(&mut g, (1, 1), (5, 5));
    assert!(is_reachable(&g, (1, 1), (5, 5)));
    assert_eq!(g.get(5, 5).unwrap(), Cell::Exit);
}

#[test]
fn carve_path_keeps_a_reachable_pair_reachable() {
    let mut g = Grid::new(6, 4).unwrap();
    g.set(1, 1, Cell::Path).unwrap();
    g.set(1, 2, Cell::Path).unwrap();
    g.set(1, 3, Cell::Path).unwrap();
    g.set(1, 4, Cell::Exit).unwrap();
    assert!(is_reachable(&g, (1, 1), (1, 4)));
    carve_path(&mut g, (1, 1), (1, 4));
    assert!(is_reachable(&g, (1, 1), (1, 4)));
    assert_eq!(g.get(1, 4).unwrap(), Cell::Exit);
}

#[test]
fn place_coins_converts_only_paths() {
    let mut g = Grid::new(5, 5).unwrap();
    g.set(1, 1, Cell::Path).unwrap();
    g.set(1, 2, Cell::Path).unwrap();
    g.set(1, 3, Cell::Path).unwrap();
    let paths_before = count_cells_of(&g, Cell::Path);
    let placed = place_coins(&mut g, 2);
    assert!(placed <= 2);
    assert_eq!(count_cells_of(&g, Cell::Coin), placed);
    assert_eq!(count_cells_of(&g, Cell::Path), paths_before - placed);
}

#[test]
fn place_coins_on_walls_places_nothing() {
    let mut g = Grid::new(4, 4).unwrap();
    let placed = place_coins(&mut g, 2);
    assert_eq!(placed, 0);
    assert_eq!(count_cells_of(&g, Cell::Coin), 0);
}
