use maze_search::board::{CellKind, Direction, ParseError};
use maze_search::state::State;

/// A 50x50 map of walls with the given cells overridden.
fn map_with(cells: &[(usize, usize, char)]) -> Vec<String> {
    let mut grid = vec![vec!['#'; 50]; 50];
    for &(y, x, c) in cells {
        grid[y][x] = c;
    }
    grid.into_iter().map(|row| row.into_iter().collect()).collect()
}

#[test]
fn new_builds_one_board_per_map() {
    let maps = vec![map_with(&[(25, 25, '@')]), map_with(&[(10, 10, '@')])];
    let s = State::new(maps).unwrap();
    assert_eq!(s.boards.len(), 2);
    assert_eq!(s.boards[0].id, 0);
    assert_eq!(s.boards[1].id, 1);
    assert_eq!(s.boards[1].character.y, 10);
    assert_eq!(s.turn, 0);
    assert_eq!(s.coin, 0);
    assert_eq!(s.evaluated_score, 0);
    assert!(s.actions.is_empty());
    assert!(!s.is_done());
}

#[test]
fn with_no_boards_every_direction_is_legal() {
    let s = State::new(vec![]).unwrap();
    let mut s = s;
    assert_eq!(s.legal_actions().len(), 4);
    s.advance(Direction::Up);
    assert_eq!(s.turn, 1);
    assert_eq!(s.coin, 0);
}

#[test]
fn new_fails_on_the_first_malformed_map() {
    let mut bad = map_with(&[(25, 25, '@')]);
    bad[0].pop();
    let maps = vec![map_with(&[(25, 25, '@')]), bad, map_with(&[(1, 1, 'o')])];
    assert!(matches!(State::new(maps), Err(ParseError::WrongColumnCount)));
}

#[test]
fn hazard_on_any_board_disqualifies_the_direction() {
    // board 0 has a hazard above the start, board 1 is open above
    let maps = vec![
        map_with(&[(25, 25, '@'), (24, 25, 'x'), (26, 25, '.')]),
        map_with(&[(25, 25, '@'), (24, 25, '.'), (26, 25, '.')]),
    ];
    let s = State::new(maps).unwrap();
    let acts = s.legal_actions();
    assert!(!acts.contains(&Direction::Up));
    assert!(acts.contains(&Direction::Down));
}

#[test]
fn walls_do_not_disqualify_but_keep_the_board_in_place() {
    // board 0 has a wall above the start, board 1 an open cell
    let maps = vec![
        map_with(&[(25, 25, '@')]),
        map_with(&[(25, 25, '@'), (24, 25, '.')]),
    ];
    let mut s = State::new(maps).unwrap();
    let acts = s.legal_actions();
    assert!(acts.contains(&Direction::Up));
    s.advance(Direction::Up);
    // the walled board did not move, the open one did
    assert_eq!(s.boards[0].character.y, 25);
    assert_eq!(s.boards[1].character.y, 24);
}

#[test]
fn legal_actions_come_in_fixed_order() {
    // everything open around the start, no hazards
    let maps = vec![map_with(&[(25, 25, '@'), (24, 25, '.'), (26, 25, '.'), (25, 24, '.'), (25, 26, '.')])];
    let s = State::new(maps).unwrap();
    let acts = s.legal_actions();
    assert_eq!(
        acts,
        vec![Direction::Up, Direction::Down, Direction::Right, Direction::Left]
    );
}

#[test]
fn advance_counts_turns_and_logs_actions() {
    let maps = vec![map_with(&[(25, 25, '@'), (25, 26, '.'), (25, 24, '.')])];
    let mut s = State::new(maps).unwrap();
    s.advance(Direction::Right);
    s.advance(Direction::Left);
    s.advance(Direction::Right);
    assert_eq!(s.turn, 3);
    assert_eq!(s.actions.len(), 3);
    assert_eq!(
        s.actions,
        vec![Direction::Right, Direction::Left, Direction::Right]
    );
}

#[test]
fn advance_aggregates_coins_across_boards() {
    let maps = vec![
        map_with(&[(25, 25, '@'), (25, 26, 'o')]),
        map_with(&[(25, 25, '@'), (25, 26, 'o')]),
        map_with(&[(25, 25, '@'), (25, 26, '.')]),
    ];
    let mut s = State::new(maps).unwrap();
    s.advance(Direction::Right);
    assert_eq!(s.coin, 2);
}

#[test]
fn coins_are_never_collected_twice() {
    // a two-cell loop: step onto the coin, back, and onto it again
    let maps = vec![map_with(&[(25, 25, '@'), (25, 26, 'o')])];
    let mut s = State::new(maps).unwrap();
    s.advance(Direction::Right);
    assert_eq!(s.coin, 1);
    assert_eq!(s.boards[0].cell[25][26], CellKind::Empty);
    s.advance(Direction::Left);
    s.advance(Direction::Right);
    assert_eq!(s.coin, 1);
    assert_eq!(s.boards[0].cell[25][26], CellKind::Empty);
}

#[test]
fn score_is_monotone_and_refreshed_on_demand() {
    let maps = vec![map_with(&[(25, 25, '@'), (25, 26, 'o'), (25, 24, '.')])];
    let mut s = State::new(maps).unwrap();
    let mut last = s.coin;
    for d in [Direction::Right, Direction::Left, Direction::Right] {
        s.advance(d);
        assert!(s.coin >= last);
        last = s.coin;
        assert_eq!(s.evaluated_score, 0); // advance leaves the score alone
    }
    s.evaluate_score();
    assert_eq!(s.evaluated_score, 1);
}

#[test]
fn states_clone_deeply() {
    let maps = vec![map_with(&[(25, 25, '@'), (25, 26, 'o')])];
    let s = State::new(maps).unwrap();
    let mut c = s.clone();
    c.advance(Direction::Right);
    assert_eq!(c.coin, 1);
    assert_eq!(c.turn, 1);
    assert_eq!(s.coin, 0);
    assert_eq!(s.turn, 0);
    assert!(s.actions.is_empty());
    assert_eq!(s.boards[0].cell[25][26], CellKind::Coin);
}
