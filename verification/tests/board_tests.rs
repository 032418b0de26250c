use maze_search::board::{Board, CellKind, Coord, Direction, ParseError};

/// A 50x50 map of walls with the given cells overridden.
fn map_with(cells: &[(usize, usize, char)]) -> Vec<String> {
    let mut grid = vec![vec!['#'; 50]; 50];
    for &(y, x, c) in cells {
        grid[y][x] = c;
    }
    grid.into_iter().map(|row| row.into_iter().collect()).collect()
}

#[test]
fn parse_records_start_and_cells() {
    let rows = map_with(&[(25, 25, '@'), (24, 25, 'o'), (26, 25, 'x'), (25, 26, '.')]);
    let b = Board::from_map(7, &rows).unwrap();
    assert_eq!(b.id, 7);
    assert_eq!(b.character.y, 25);
    assert_eq!(b.character.x, 25);
    assert_eq!(b.cell[25][25], CellKind::Empty);
    assert_eq!(b.cell[24][25], CellKind::Coin);
    assert_eq!(b.cell[26][25], CellKind::Hazard);
    assert_eq!(b.cell[25][26], CellKind::Empty);
    assert_eq!(b.cell[0][0], CellKind::Wall);
}

#[test]
fn parse_tolerates_unknown_symbols_as_empty() {
    let rows = map_with(&[(25, 25, '@'), (10, 10, '?')]);
    let b = Board::from_map(0, &rows).unwrap();
    assert_eq!(b.cell[10][10], CellKind::Empty);
}

#[test]
fn parse_takes_last_start_marker() {
    let rows = map_with(&[(5, 5, '@'), (30, 7, '@')]);
    let b = Board::from_map(0, &rows).unwrap();
    assert_eq!(b.character.y, 30);
    assert_eq!(b.character.x, 7);
    // the earlier marker reads as an empty cell
    assert_eq!(b.cell[5][5], CellKind::Empty);
}

#[test]
fn parse_rejects_wrong_row_count() {
    let mut rows = map_with(&[(25, 25, '@')]);
    rows.pop();
    assert!(matches!(Board::from_map(0, &rows), Err(ParseError::WrongRowCount)));
}

#[test]
fn parse_rejects_wrong_column_count() {
    let mut rows = map_with(&[(25, 25, '@')]);
    rows[3].pop();
    assert!(matches!(Board::from_map(0, &rows), Err(ParseError::WrongColumnCount)));
}

#[test]
fn parse_rejects_missing_start() {
    let rows = map_with(&[(25, 25, 'o')]);
    assert!(matches!(Board::from_map(0, &rows), Err(ParseError::MissingStart)));
}

#[test]
fn passable_and_hazard_queries() {
    let rows = map_with(&[(25, 25, '@'), (24, 25, 'x'), (25, 26, '.')]);
    let b = Board::from_map(0, &rows).unwrap();
    assert!(b.is_passable(Coord::new(25, 25)));
    assert!(b.is_passable(Coord::new(25, 26)));
    assert!(b.is_passable(Coord::new(24, 25))); // hazards are not walls
    assert!(!b.is_passable(Coord::new(0, 0))); // wall
    assert!(!b.is_passable(Coord::new(-1, 0))); // out of bounds
    assert!(!b.is_passable(Coord::new(0, 50)));
    assert!(b.is_hazard(Coord::new(24, 25)));
    assert!(!b.is_hazard(Coord::new(25, 25)));
    assert!(!b.is_hazard(Coord::new(-3, 12)));
}

#[test]
fn step_into_wall_is_a_no_op() {
    let rows = map_with(&[(25, 25, '@')]);
    let mut b = Board::from_map(0, &rows).unwrap();
    let collected = b.step(Direction::Up);
    assert!(!collected);
    assert_eq!(b.character.y, 25);
    assert_eq!(b.character.x, 25);
}

#[test]
fn step_collects_a_coin_exactly_once() {
    let rows = map_with(&[(25, 25, '@'), (25, 26, 'o')]);
    let mut b = Board::from_map(0, &rows).unwrap();
    assert!(b.step(Direction::Right));
    assert_eq!(b.character.x, 26);
    assert_eq!(b.cell[25][26], CellKind::Empty);
    assert!(!b.step(Direction::Left));
    assert!(!b.step(Direction::Right)); // the coin cell is empty now
    assert_eq!(b.character.x, 26);
}

#[test]
fn command_chars_render_directions() {
    assert_eq!(Direction::Up.command_char(), 'U');
    assert_eq!(Direction::Down.command_char(), 'D');
    assert_eq!(Direction::Right.command_char(), 'R');
    assert_eq!(Direction::Left.command_char(), 'L');
}

#[test]
fn boards_clone_deeply() {
    let rows = map_with(&[(25, 25, '@'), (25, 26, 'o')]);
    let b = Board::from_map(0, &rows).unwrap();
    let mut c = b.clone();
    assert!(c.step(Direction::Right));
    // the original is untouched
    assert_eq!(b.character.x, 25);
    assert_eq!(b.cell[25][26], CellKind::Coin);
    assert_eq!(c.cell[25][26], CellKind::Empty);
}
