use game_of_life::universe::rule;
use game_of_life::Universe;

fn rules_blank(height: u32, width: u32) -> Universe {
    let mut universe = Universe::new(&[false; 55]).unwrap();
    universe.set_height(1).unwrap();
    universe.set_width(width).unwrap();
    universe.set_height(height).unwrap();
    universe
}

fn rules_alive(universe: &Universe, row: u32, col: u32) -> bool {
    universe.get_cells()[(row * universe.width() + col) as usize]
}

fn rules_live(universe: &Universe) -> Vec<(u32, u32)> {
    let mut live = Vec::new();
    for row in 0..universe.height() {
        for col in 0..universe.width() {
            if rules_alive(universe, row, col) {
                live.push((row, col));
            }
        }
    }
    live
}

#[test]
fn corner_counts_each_wrapped_neighbor() {
    let (height, width) = (5u32, 7u32);
    let around = [
        (height - 1, width - 1),
        (height - 1, 0),
        (height - 1, 1),
        (0, width - 1),
        (0, 1),
        (1, width - 1),
        (1, 0),
        (1, 1),
    ];
    for &(row, col) in around.iter() {
        let mut universe = rules_blank(height, width);
        universe.toggle_cell(row, col);
        assert_eq!(universe.live_neighbor_count(0, 0), 1, "cell ({row}, {col})");
    }
}

#[test]
fn corner_counts_all_wrapped_neighbors() {
    let mut universe = rules_blank(5, 7);
    universe.set_cells(&[(4, 6), (4, 0), (0, 6)]);
    assert_eq!(universe.live_neighbor_count(0, 0), 3);
    universe.set_cells(&[(4, 1), (0, 1), (1, 6), (1, 0), (1, 1)]);
    assert_eq!(universe.live_neighbor_count(0, 0), 8);
}

#[test]
fn cell_is_not_its_own_neighbor() {
    let mut universe = rules_blank(5, 7);
    universe.toggle_cell(2, 3);
    assert_eq!(universe.live_neighbor_count(2, 3), 0);
    assert_eq!(universe.live_neighbor_count(2, 4), 1);
    assert_eq!(universe.live_neighbor_count(0, 0), 0);
}

#[test]
fn neighbor_count_reduces_its_coordinates() {
    let mut universe = rules_blank(5, 7);
    universe.set_cells(&[(4, 6), (1, 1)]);
    assert_eq!(universe.live_neighbor_count(5, 7), 2);
    assert_eq!(universe.live_neighbor_count(10, 14), 2);
    assert_eq!(universe.live_neighbor_count(5, 7), universe.live_neighbor_count(0, 0));
}

#[test]
fn narrow_grid_counts_a_cell_once_per_offset() {
    let mut single = rules_blank(1, 1);
    single.toggle_cell(0, 0);
    assert_eq!(single.live_neighbor_count(0, 0), 8);

    let mut pair = rules_blank(1, 2);
    pair.toggle_cell(0, 1);
    // Left and right both lead to (0, 1), on each of three rows that are one.
    assert_eq!(pair.live_neighbor_count(0, 0), 6);
    assert_eq!(pair.live_neighbor_count(0, 1), 2);
}

#[test]
fn rule_table() {
    for n in 0u8..=8 {
        assert_eq!(rule(true, n), n == 2 || n == 3, "alive with {n}");
        assert_eq!(rule(false, n), n == 3, "dead with {n}");
    }
}

#[test]
fn lone_cell_dies() {
    let mut universe = rules_blank(6, 6);
    universe.toggle_cell(2, 2);
    assert_eq!(rules_live(&universe), vec![(2, 2)]);
    universe.tick();
    assert_eq!(rules_live(&universe), vec![]);
}

#[test]
fn block_is_still() {
    let mut universe = rules_blank(6, 6);
    universe.set_cells(&[(2, 2), (2, 3), (3, 2), (3, 3)]);
    let before = universe.get_cells().clone();
    universe.tick();
    assert_eq!(universe.get_cells(), &before);
    assert_eq!(rules_live(&universe), vec![(2, 2), (2, 3), (3, 2), (3, 3)]);
}

#[test]
fn blinker_turns_and_returns() {
    let (row, col) = (3u32, 2u32);
    let mut universe = rules_blank(7, 6);
    universe.set_cells(&[(3, 1), (3, 2), (3, 3)]);
    let start = universe.get_cells().clone();
    universe.tick();
    assert_eq!(rules_live(&universe), vec![(row - 1, col), (row, col), (row + 1, col)]);
    universe.tick();
    assert_eq!(rules_live(&universe), vec![(row, col - 1), (row, col), (row, col + 1)]);
    assert_eq!(universe.get_cells(), &start);
}

#[test]
fn blinker_is_itself_after_two_ticks() {
    let mut universe = rules_blank(7, 6);
    universe.set_cells(&[(3, 1), (3, 2), (3, 3)]);
    let start = universe.get_cells().clone();
    universe.tick_many(2);
    assert_eq!(universe.get_cells(), &start);
}

#[test]
fn blinker_across_the_edge() {
    let mut universe = rules_blank(5, 5);
    universe.set_cells(&[(0, -1), (0, 0), (0, 1)]);
    assert_eq!(rules_live(&universe), vec![(0, 0), (0, 1), (0, 4)]);
    universe.tick();
    assert_eq!(rules_live(&universe), vec![(0, 0), (1, 0), (4, 0)]);
    universe.tick();
    assert_eq!(rules_live(&universe), vec![(0, 0), (0, 1), (0, 4)]);
}

#[test]
fn reproduction_and_overpopulation() {
    let mut universe = rules_blank(6, 6);
    // A plus sign: the centre has four live neighbours and dies, each arm
    // has three and lives on, each corner of the square around the centre
    // has three and comes alive.
    universe.set_cells(&[(2, 2), (1, 2), (3, 2), (2, 1), (2, 3)]);
    universe.tick();
    assert_eq!(
        rules_live(&universe),
        vec![(1, 1), (1, 2), (1, 3), (2, 1), (2, 3), (3, 1), (3, 2), (3, 3)]
    );
}

#[test]
fn tick_many_zero_changes_nothing() {
    let mut universe = rules_blank(6, 6);
    universe.set_cells(&[(3, 1), (3, 2), (3, 3)]);
    let start = universe.get_cells().clone();
    universe.tick_many(0);
    assert_eq!(universe.get_cells(), &start);
}

#[test]
fn tick_many_is_repeated_tick() {
    let draws: Vec<bool> = (0..55).map(|k| k % 3 != 1).collect();
    let mut stepped = Universe::new(&draws).unwrap();
    let mut jumped = Universe::new(&draws).unwrap();
    for _ in 0..5 {
        stepped.tick();
    }
    jumped.tick_many(5);
    assert_eq!(stepped.get_cells(), jumped.get_cells());
}

#[test]
fn tick_keeps_the_initial_cells() {
    let draws: Vec<bool> = (0..55).map(|k| k % 2 == 0).collect();
    let mut universe = Universe::new(&draws).unwrap();
    let initial = universe.initial_cells().to_vec();
    assert_eq!(universe.cells(), &initial[..]);
    universe.tick_many(3);
    assert_eq!(universe.initial_cells(), &initial[..]);
    assert_ne!(universe.cells(), &initial[..]);
}

#[test]
fn glider_moves_one_cell_down_and_right_in_four_ticks() {
    let mut universe = rules_blank(20, 20);
    universe.add_glider(5, 5);
    let start = rules_live(&universe);
    assert_eq!(start, vec![(3, 4), (4, 5), (5, 3), (5, 4), (5, 5)]);
    universe.tick_many(4);
    let moved: Vec<(u32, u32)> = start.iter().map(|&(row, col)| (row + 1, col + 1)).collect();
    assert_eq!(rules_live(&universe), moved);
}

#[test]
fn glider_wraps_at_the_edge() {
    let mut universe = rules_blank(8, 8);
    universe.add_glider(5, 5);
    universe.tick_many(4 * 3);
    let mut moved: Vec<(u32, u32)> = [(3u32, 4u32), (4, 5), (5, 3), (5, 4), (5, 5)]
        .iter()
        .map(|&(row, col)| ((row + 3) % 8, (col + 3) % 8))
        .collect();
    moved.sort();
    assert_eq!(rules_live(&universe), moved);
    // After eight periods it has gone once around.
    universe.tick_many(4 * 5);
    assert_eq!(rules_live(&universe), vec![(3, 4), (4, 5), (5, 3), (5, 4), (5, 5)]);
}
