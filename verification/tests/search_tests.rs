use maze_search::board::Direction;
use maze_search::search::chokudai_search_action;
use maze_search::state::State;

/// A 50x50 map of walls with the given cells overridden.
fn map_with(cells: &[(usize, usize, char)]) -> Vec<String> {
    let mut grid = vec![vec!['#'; 50]; 50];
    for &(y, x, c) in cells {
        grid[y][x] = c;
    }
    grid.into_iter().map(|row| row.into_iter().collect()).collect()
}

/// A 3x3 open area centred at (25, 25) with the start in the middle and one
/// coin directly above it; everything else is wall.
fn three_by_three_with_coin_above() -> Vec<String> {
    let mut cells = Vec::new();
    for y in 24..27 {
        for x in 24..27 {
            cells.push((y, x, '.'));
        }
    }
    cells.push((25, 25, '@'));
    cells.push((24, 25, 'o'));
    map_with(&cells)
}

#[test]
fn zero_budget_yields_the_empty_sequence() {
    let s = State::new(vec![three_by_three_with_coin_above()]).unwrap();
    let actions = chokudai_search_action(&s, 1, 2500, 0);
    assert!(actions.is_empty());
}

#[test]
fn zero_budget_is_deterministic_for_any_depth() {
    let s = State::new(vec![map_with(&[(25, 25, '@')])]).unwrap();
    assert!(chokudai_search_action(&s, 3, 1, 0).is_empty());
    assert!(chokudai_search_action(&s, 3, 0, 0).is_empty());
}

#[test]
fn search_finds_the_coin_above_the_start() {
    let s = State::new(vec![three_by_three_with_coin_above()]).unwrap();
    let actions = chokudai_search_action(&s, 1, 2, 50);
    assert_eq!(actions.len(), 2);
    assert_eq!(actions[0], Direction::Up);
    // replay the committed sequence on a fresh state
    let mut replay = State::new(vec![three_by_three_with_coin_above()]).unwrap();
    for d in &actions {
        assert!(replay.legal_actions().contains(d));
        replay.advance(*d);
    }
    assert_eq!(replay.coin, 1);
}

#[test]
fn committed_sequences_are_always_playable() {
    // open area with a hazard pocket: the search must never commit a move
    // that steps onto the hazard
    let mut cells = Vec::new();
    for y in 20..30 {
        for x in 20..30 {
            cells.push((y, x, '.'));
        }
    }
    cells.push((25, 25, '@'));
    cells.push((24, 25, 'x'));
    cells.push((26, 26, 'o'));
    let map = map_with(&cells);
    let s = State::new(vec![map.clone()]).unwrap();
    let actions = chokudai_search_action(&s, 2, 5, 30);
    let mut replay = State::new(vec![map]).unwrap();
    for d in &actions {
        assert!(replay.legal_actions().contains(d));
        replay.advance(*d);
    }
}
