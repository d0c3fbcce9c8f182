use fixedbitset::FixedBitSet;
use game_of_life::seed::{BAND_START, SPAWN_SIZE};
use game_of_life::universe::{DEFAULT_DRAWS, DEFAULT_EXTENT};
use game_of_life::{Seeding, Universe, UniverseError};

/// A fixed sequence of booleans that looks irregular.
fn seeding_draws(count: usize, salt: u64) -> Vec<bool> {
    let mut state = 0x2545_f491_4f6c_dd1d_u64 ^ salt;
    (0..count)
        .map(|_| {
            state ^= state << 13;
            state ^= state >> 7;
            state ^= state << 17;
            state & 1 == 1
        })
        .collect()
}

fn seeding_live(cells: &FixedBitSet, width: u32) -> Vec<(u32, u32)> {
    (0..cells.len())
        .filter(|&i| cells[i])
        .map(|i| (i as u32 / width, i as u32 % width))
        .collect()
}

/// The symmetric seeding written out as eight writes for each pair, on a
/// plain vector.
fn seeding_by_hand_symmetric(height: usize, width: usize, draws: &[bool]) -> Vec<bool> {
    let mut cells = vec![false; height * width];
    let mut next = 0;
    for x in 40..width / 2 {
        for y in x..height / 2 {
            let cell = draws[next];
            next += 1;
            cells[y * width + x] = cell;
            cells[x * width + y] = cell;
            cells[(height - 1 - y) * width + x] = cell;
            cells[(height - 1 - x) * width + y] = cell;
            cells[y * width + (width - 1 - x)] = cell;
            cells[x * width + (width - 1 - y)] = cell;
            cells[(height - 1 - y) * width + (width - 1 - x)] = cell;
            cells[(height - 1 - x) * width + (width - 1 - y)] = cell;
        }
    }
    cells
}

/// The plain seeding written out as one pass over all cells.
fn seeding_by_hand_window(height: usize, width: usize, draws: &[bool]) -> Vec<bool> {
    let spawn_min_x = width / 2 - 5;
    let spawn_max_x = spawn_min_x + 10;
    let spawn_min_y = height / 2 - 5;
    let spawn_max_y = spawn_min_y + 10;
    let mut cells = vec![false; height * width];
    let mut next = 0;
    for i in 0..height * width {
        let column = i % width;
        let row = i / width;
        if column < spawn_min_x || column > spawn_max_x || row < spawn_min_y || row > spawn_max_y {
            continue;
        }
        cells[i] = draws[next];
        next += 1;
    }
    cells
}

fn seeding_as_vec(cells: &FixedBitSet) -> Vec<bool> {
    (0..cells.len()).map(|i| cells[i]).collect()
}

#[test]
fn constants() {
    assert_eq!(SPAWN_SIZE, 10);
    assert_eq!(BAND_START, 40);
    assert_eq!(DEFAULT_EXTENT, 100);
    assert_eq!(DEFAULT_DRAWS, 55);
}

#[test]
fn new_universe_is_a_hundred_square() {
    let universe = Universe::new(&seeding_draws(55, 1)).unwrap();
    assert_eq!(universe.width(), 100);
    assert_eq!(universe.height(), 100);
    assert_eq!(universe.get_cells().len(), 10_000);
}

#[test]
fn new_universe_keeps_its_seed() {
    let universe = Universe::new(&seeding_draws(55, 2)).unwrap();
    assert_eq!(universe.cells(), universe.initial_cells());
    assert!(universe.get_cells().count_ones(..) > 0);
}

#[test]
fn new_universe_needs_fifty_five_draws() {
    assert_eq!(
        Universe::new(&seeding_draws(54, 3)).err(),
        Some(UniverseError::InvalidLength)
    );
    assert_eq!(Universe::new(&[]).err(), Some(UniverseError::InvalidLength));
    assert!(Universe::new(&seeding_draws(55, 3)).is_ok());
}

#[test]
fn new_universe_reads_no_more_than_it_needs() {
    let mut draws = seeding_draws(55, 4);
    let exact = Universe::new(&draws).unwrap();
    draws.extend([true; 20]);
    let more = Universe::new(&draws).unwrap();
    assert_eq!(exact.get_cells(), more.get_cells());
}

#[test]
fn same_draws_same_universe() {
    let draws = seeding_draws(55, 5);
    let one = Universe::new(&draws).unwrap();
    let two = Universe::new(&draws).unwrap();
    assert_eq!(one.get_cells(), two.get_cells());
    let other = Universe::new(&seeding_draws(55, 6)).unwrap();
    assert_ne!(one.get_cells(), other.get_cells());
}

#[test]
fn symmetric_draw_counts() {
    assert_eq!(Universe::draws_needed(Seeding::Symmetric, 100, 100), Ok(55));
    // Ten columns of the band, with 20, 19, .. 11 pairs.
    assert_eq!(Universe::draws_needed(Seeding::Symmetric, 120, 100), Ok(155));
    // The band ends at the middle row: x runs to 59, y stops at 49.
    assert_eq!(Universe::draws_needed(Seeding::Symmetric, 100, 120), Ok(55));
    assert_eq!(Universe::draws_needed(Seeding::Symmetric, 82, 82), Ok(1));
    assert_eq!(Universe::draws_needed(Seeding::Symmetric, 81, 82), Ok(0));
    assert_eq!(Universe::draws_needed(Seeding::Symmetric, 82, 81), Ok(0));
    assert_eq!(Universe::draws_needed(Seeding::Symmetric, 5, 7), Ok(0));
    assert_eq!(Universe::draws_needed(Seeding::Symmetric, 1000, 10), Ok(0));
}

#[test]
fn window_draw_counts() {
    assert_eq!(Universe::draws_needed(Seeding::Window, 100, 100), Ok(121));
    assert_eq!(Universe::draws_needed(Seeding::Window, 12, 12), Ok(121));
    // Rows and columns 0 to 10 of which the grid has 0 to 9.
    assert_eq!(Universe::draws_needed(Seeding::Window, 10, 10), Ok(100));
    assert_eq!(Universe::draws_needed(Seeding::Window, 11, 10), Ok(110));
    assert_eq!(Universe::draws_needed(Seeding::Window, 10, 11), Ok(110));
}

#[test]
fn draw_counts_refuse_bad_extents() {
    for seeding in [Seeding::Window, Seeding::Symmetric] {
        assert_eq!(
            Universe::draws_needed(seeding, 0, 100),
            Err(UniverseError::InvalidDimension)
        );
        assert_eq!(
            Universe::draws_needed(seeding, 100, 0),
            Err(UniverseError::InvalidDimension)
        );
        assert_eq!(
            Universe::draws_needed(seeding, 65536, 65536),
            Err(UniverseError::InvalidDimension)
        );
    }
    assert!(Universe::draws_needed(Seeding::Symmetric, 65535, 65537).is_ok());
    assert_eq!(
        Universe::draws_needed(Seeding::Window, 9, 100),
        Err(UniverseError::InvalidDimension)
    );
    assert_eq!(
        Universe::draws_needed(Seeding::Window, 100, 9),
        Err(UniverseError::InvalidDimension)
    );
    assert_eq!(
        Universe::draws_needed(Seeding::Symmetric, 202, 100),
        Err(UniverseError::InvalidDimension)
    );
    // Ten columns of the band, with 60, 59, .. 51 pairs.
    assert_eq!(Universe::draws_needed(Seeding::Symmetric, 201, 100), Ok(555));
}

#[test]
fn symmetric_seed_first_pair() {
    let mut draws = vec![false; 55];
    draws[0] = true;
    let cells = Universe::random_symmetric(100, 100, &draws).unwrap();
    assert_eq!(cells.len(), 10_000);
    assert_eq!(seeding_live(&cells, 100), vec![(40, 40), (40, 59), (59, 40), (59, 59)]);
}

#[test]
fn symmetric_seed_second_pair() {
    let mut draws = vec![false; 55];
    draws[1] = true;
    let cells = Universe::random_symmetric(100, 100, &draws).unwrap();
    assert_eq!(
        seeding_live(&cells, 100),
        vec![(40, 41), (40, 58), (41, 40), (41, 59), (58, 40), (58, 59), (59, 41), (59, 58)]
    );
}

#[test]
fn symmetric_seed_draw_order() {
    // The pairs with x = 40 take draws 0 to 9, so (41, 41) takes draw 10
    // and the last pair, (49, 49), takes draw 54.
    let mut draws = vec![false; 55];
    draws[10] = true;
    let cells = Universe::random_symmetric(100, 100, &draws).unwrap();
    assert_eq!(seeding_live(&cells, 100), vec![(41, 41), (41, 58), (58, 41), (58, 58)]);

    let mut draws = vec![false; 55];
    draws[54] = true;
    let cells = Universe::random_symmetric(100, 100, &draws).unwrap();
    assert_eq!(seeding_live(&cells, 100), vec![(49, 49), (49, 50), (50, 49), (50, 50)]);
}

#[test]
fn symmetric_seed_all_true_fills_the_band() {
    let cells = Universe::random_symmetric(100, 100, &[true; 55]).unwrap();
    let mut band = Vec::new();
    for row in 40..60 {
        for col in 40..60 {
            band.push((row, col));
        }
    }
    assert_eq!(seeding_live(&cells, 100), band);
}

#[test]
fn symmetric_seed_all_false_is_dead() {
    let cells = Universe::random_symmetric(100, 100, &[false; 55]).unwrap();
    assert_eq!(cells.count_ones(..), 0);
    assert_eq!(cells.len(), 10_000);
}

#[test]
fn symmetric_seed_is_symmetric_four_ways() {
    for salt in 0..8 {
        let cells = Universe::random_symmetric(100, 100, &seeding_draws(55, salt)).unwrap();
        let at = |row: usize, col: usize| cells[row * 100 + col];
        for row in 0..100 {
            for col in 0..100 {
                assert_eq!(at(row, col), at(row, 99 - col), "left-right at ({row}, {col})");
                assert_eq!(at(row, col), at(99 - row, col), "top-bottom at ({row}, {col})");
                assert_eq!(at(row, col), at(col, row), "diagonal at ({row}, {col})");
                assert_eq!(at(row, col), at(99 - col, 99 - row), "other diagonal at ({row}, {col})");
            }
        }
    }
}

#[test]
fn symmetric_seed_flips_in_oblong_grids() {
    for &(height, width) in [(100usize, 120usize), (120, 100), (90, 200), (200, 100), (83, 97)].iter() {
        let needed = Universe::draws_needed(Seeding::Symmetric, height as u32, width as u32).unwrap();
        let cells =
            Universe::random_symmetric(height as u32, width as u32, &seeding_draws(needed, 9)).unwrap();
        assert_eq!(cells.len(), height * width);
        let at = |row: usize, col: usize| cells[row * width + col];
        for row in 0..height {
            for col in 0..width {
                assert_eq!(at(row, col), at(row, width - 1 - col), "{height}x{width} ({row}, {col})");
                assert_eq!(at(row, col), at(height - 1 - row, col), "{height}x{width} ({row}, {col})");
            }
        }
    }
}

#[test]
fn symmetric_seed_agrees_with_eight_writes_per_pair() {
    let extents = [
        (100usize, 100usize),
        (101, 101),
        (100, 120),
        (120, 100),
        (121, 99),
        (200, 100),
        (201, 100),
        (90, 200),
        (82, 82),
        (83, 97),
        (30, 30),
        (164, 82),
    ];
    for &(height, width) in extents.iter() {
        let needed = Universe::draws_needed(Seeding::Symmetric, height as u32, width as u32).unwrap();
        for salt in 0..4 {
            let draws = seeding_draws(needed, salt);
            let cells = Universe::random_symmetric(height as u32, width as u32, &draws).unwrap();
            assert_eq!(
                seeding_as_vec(&cells),
                seeding_by_hand_symmetric(height, width, &draws),
                "{height}x{width}"
            );
        }
    }
}

#[test]
fn symmetric_seed_in_a_high_grid_shows_the_later_pair() {
    // In 120 rows of 100 columns the pair (40, 59) is drawn as number 19,
    // and its images cover those of the pair (40, 40), drawn first.
    let mut draws = vec![false; 155];
    draws[0] = true;
    let cells = Universe::random_symmetric(120, 100, &draws).unwrap();
    assert_eq!(seeding_live(&cells, 100), vec![]);

    let mut draws = vec![false; 155];
    draws[19] = true;
    let cells = Universe::random_symmetric(120, 100, &draws).unwrap();
    assert_eq!(
        seeding_live(&cells, 100),
        vec![(40, 40), (40, 59), (59, 40), (59, 59), (60, 40), (60, 59), (79, 40), (79, 59)]
    );
}

#[test]
fn symmetric_seed_errors() {
    assert_eq!(
        Universe::random_symmetric(100, 100, &[true; 54]).err(),
        Some(UniverseError::InvalidLength)
    );
    assert_eq!(
        Universe::random_symmetric(0, 100, &[true; 55]).err(),
        Some(UniverseError::InvalidDimension)
    );
    assert_eq!(
        Universe::random_symmetric(100, 0, &[true; 55]).err(),
        Some(UniverseError::InvalidDimension)
    );
    assert_eq!(
        Universe::random_symmetric(65536, 65536, &[true; 55]).err(),
        Some(UniverseError::InvalidDimension)
    );
    // The band would reach column 100 of a grid that ends at column 99.
    assert_eq!(
        Universe::random_symmetric(202, 100, &[true; 4000]).err(),
        Some(UniverseError::InvalidDimension)
    );
    // A bad extent is reported before a short supply.
    assert_eq!(
        Universe::random_symmetric(202, 100, &[]).err(),
        Some(UniverseError::InvalidDimension)
    );
}

#[test]
fn symmetric_seed_of_a_small_grid_draws_nothing() {
    let cells = Universe::random_symmetric(5, 7, &[]).unwrap();
    assert_eq!(cells.len(), 35);
    assert_eq!(cells.count_ones(..), 0);
    let cells = Universe::random_symmetric(1000, 10, &[]).unwrap();
    assert_eq!(cells.len(), 10_000);
    assert_eq!(cells.count_ones(..), 0);
}

#[test]
fn window_seed_draw_order() {
    for &(k, row, col) in [(0usize, 45u32, 45u32), (10, 45, 55), (11, 46, 45), (60, 50, 50), (120, 55, 55)].iter() {
        let mut draws = vec![false; 121];
        draws[k] = true;
        let cells = Universe::random_cells(100, 100, &draws).unwrap();
        assert_eq!(seeding_live(&cells, 100), vec![(row, col)], "draw {k}");
    }
}

#[test]
fn window_seed_all_true_fills_the_window() {
    let cells = Universe::random_cells(100, 100, &[true; 121]).unwrap();
    let mut window = Vec::new();
    for row in 45..=55 {
        for col in 45..=55 {
            window.push((row, col));
        }
    }
    assert_eq!(seeding_live(&cells, 100), window);
    assert_eq!(cells.len(), 10_000);
}

#[test]
fn window_seed_is_cut_at_the_edge() {
    let cells = Universe::random_cells(10, 11, &[true; 110]).unwrap();
    assert_eq!(cells.len(), 110);
    assert_eq!(cells.count_ones(..), 110);
    let mut draws = vec![false; 110];
    draws[11] = true;
    let cells = Universe::random_cells(10, 11, &draws).unwrap();
    assert_eq!(seeding_live(&cells, 11), vec![(1, 0)]);
}

#[test]
fn window_seed_agrees_with_one_pass_over_all_cells() {
    for &(height, width) in
        [(100usize, 100usize), (10, 10), (11, 10), (10, 11), (12, 13), (31, 17), (64, 64)].iter()
    {
        let needed = Universe::draws_needed(Seeding::Window, height as u32, width as u32).unwrap();
        for salt in 0..4 {
            let draws = seeding_draws(needed, salt);
            let cells = Universe::random_cells(height as u32, width as u32, &draws).unwrap();
            assert_eq!(
                seeding_as_vec(&cells),
                seeding_by_hand_window(height, width, &draws),
                "{height}x{width}"
            );
        }
    }
}

#[test]
fn window_seed_errors() {
    assert_eq!(
        Universe::random_cells(100, 100, &[true; 120]).err(),
        Some(UniverseError::InvalidLength)
    );
    assert_eq!(
        Universe::random_cells(10, 10, &[true; 99]).err(),
        Some(UniverseError::InvalidLength)
    );
    assert_eq!(
        Universe::random_cells(9, 100, &[true; 121]).err(),
        Some(UniverseError::InvalidDimension)
    );
    assert_eq!(
        Universe::random_cells(100, 9, &[true; 121]).err(),
        Some(UniverseError::InvalidDimension)
    );
    assert_eq!(
        Universe::random_cells(0, 100, &[true; 121]).err(),
        Some(UniverseError::InvalidDimension)
    );
    assert_eq!(
        Universe::random_cells(65536, 65536, &[true; 121]).err(),
        Some(UniverseError::InvalidDimension)
    );
}

#[test]
fn randomise_reseeds_and_keeps_the_seed() {
    let mut universe = Universe::new(&seeding_draws(55, 10)).unwrap();
    universe.tick_many(2);
    let draws = seeding_draws(55, 11);
    assert_eq!(universe.randomise(&draws), Ok(()));
    let expected = Universe::random_symmetric(100, 100, &draws).unwrap();
    assert_eq!(universe.get_cells(), &expected);
    assert_eq!(universe.initial_cells(), expected.as_slice());
    assert_eq!(universe.width(), 100);
    assert_eq!(universe.height(), 100);
}

#[test]
fn randomise_with_window() {
    let mut universe = Universe::new(&seeding_draws(55, 12)).unwrap();
    let draws = seeding_draws(121, 13);
    assert_eq!(universe.randomise_with(Seeding::Window, &draws), Ok(()));
    let expected = Universe::random_cells(100, 100, &draws).unwrap();
    assert_eq!(universe.get_cells(), &expected);
    assert_eq!(universe.initial_cells(), expected.as_slice());
}

#[test]
fn randomise_with_symmetric_is_randomise() {
    let draws = seeding_draws(55, 14);
    let mut one = Universe::new(&seeding_draws(55, 15)).unwrap();
    let mut two = Universe::new(&seeding_draws(55, 16)).unwrap();
    one.randomise(&draws).unwrap();
    two.randomise_with(Seeding::Symmetric, &draws).unwrap();
    assert_eq!(one.get_cells(), two.get_cells());
}

#[test]
fn refused_randomise_changes_nothing() {
    let mut universe = Universe::new(&seeding_draws(55, 17)).unwrap();
    universe.tick();
    let cells = universe.get_cells().clone();
    let initial = universe.initial_cells().to_vec();
    assert_eq!(universe.randomise(&[true; 54]), Err(UniverseError::InvalidLength));
    assert_eq!(
        universe.randomise_with(Seeding::Window, &[true; 120]),
        Err(UniverseError::InvalidLength)
    );
    assert_eq!(universe.get_cells(), &cells);
    assert_eq!(universe.initial_cells(), &initial[..]);

    universe.set_height(202).unwrap();
    universe.toggle_cell(3, 3);
    let cells = universe.get_cells().clone();
    assert_eq!(universe.randomise(&[true; 4000]), Err(UniverseError::InvalidDimension));
    assert_eq!(universe.get_cells(), &cells);
    assert_eq!(universe.initial_cells(), &initial[..]);

    universe.set_height(9).unwrap();
    assert_eq!(
        universe.randomise_with(Seeding::Window, &[true; 121]),
        Err(UniverseError::InvalidDimension)
    );
    assert_eq!(universe.get_cells().count_ones(..), 0);
    assert_eq!(universe.height(), 9);
}

#[test]
fn randomise_after_resize_uses_the_new_extents() {
    let mut universe = Universe::new(&seeding_draws(55, 18)).unwrap();
    universe.set_height(120).unwrap();
    let draws = seeding_draws(155, 19);
    assert_eq!(universe.randomise(&draws[..154]), Err(UniverseError::InvalidLength));
    assert_eq!(universe.randomise(&draws), Ok(()));
    assert_eq!(
        seeding_as_vec(universe.get_cells()),
        seeding_by_hand_symmetric(120, 100, &draws)
    );
}
