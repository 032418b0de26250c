use maze_search::select::{count_trap, select_safest};

/// A 50x50 map of walls with a start and the given number of hazard tiles.
fn map_with_hazards(hazards: usize) -> Vec<String> {
    let mut grid = vec![vec!['#'; 50]; 50];
    grid[25][25] = '@';
    let mut left = hazards;
    for y in 0..50 {
        for x in 0..50 {
            if left == 0 {
                break;
            }
            if (y, x) != (25, 25) {
                grid[y][x] = 'x';
                left -= 1;
            }
        }
    }
    grid.into_iter().map(|row| row.into_iter().collect()).collect()
}

#[test]
fn count_trap_counts_hazard_symbols_exactly() {
    assert_eq!(count_trap(&map_with_hazards(0)), 0);
    assert_eq!(count_trap(&map_with_hazards(5)), 5);
    assert_eq!(count_trap(&map_with_hazards(137)), 137);
    let rows = vec!["x.x".to_string(), "".to_string(), "xxx".to_string()];
    assert_eq!(count_trap(&rows), 5);
}

#[test]
fn selection_returns_the_safest_maps_in_index_order() {
    let maps = vec![map_with_hazards(5), map_with_hazards(0), map_with_hazards(2)];
    assert_eq!(select_safest(&maps, 2), vec![1, 2]);
}

#[test]
fn selection_breaks_count_ties_by_original_index() {
    let maps = vec![
        map_with_hazards(3),
        map_with_hazards(1),
        map_with_hazards(3),
        map_with_hazards(1),
    ];
    assert_eq!(select_safest(&maps, 3), vec![0, 1, 3]);
}

#[test]
fn selection_edge_sizes() {
    let maps = vec![map_with_hazards(4), map_with_hazards(9)];
    assert_eq!(select_safest(&maps, 0), Vec::<usize>::new());
    assert_eq!(select_safest(&maps, 2), vec![0, 1]);
}
