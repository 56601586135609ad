use bitwise_life::grid::Grid;
use bitwise_life::stepper::{next_generation, run, step, DoubleBuffer};

fn life_grid(rows: usize, width: usize, live: &[(usize, usize)]) -> Grid {
    let mut g = Grid::initialize(width, rows, 1).unwrap();
    for &(r, c) in live {
        g.set_cell(r, c, true);
    }
    g
}

fn life_cells(g: &Grid) -> Vec<(usize, usize)> {
    let mut live = Vec::new();
    for r in 0..g.rows() {
        for c in 0..g.width() {
            if g.get_cell(r, c) {
                live.push((r, c));
            }
        }
    }
    live
}

fn life_shifted(live: &[(usize, usize)], dr: usize, dc: usize, rows: usize, width: usize) -> Vec<(usize, usize)> {
    let mut moved: Vec<(usize, usize)> = live.iter().map(|&(r, c)| ((r + dr) % rows, (c + dc) % width)).collect();
    moved.sort();
    moved
}

fn life_scrambled(rows: usize, cols: usize, seed: u64) -> Grid {
    let mut g = Grid::new(rows, cols);
    let mut x = seed;
    for r in 0..rows {
        for w in 0..cols {
            x = x.wrapping_mul(6364136223846793005).wrapping_add(1442695040888963407);
            let hi = x;
            x = x.wrapping_mul(6364136223846793005).wrapping_add(1442695040888963407);
            let lo = x;
            g.set_word(r, w, ((hi as u128) << 64) | lo as u128);
        }
    }
    g
}

fn life_naive_step(g: &Grid) -> Vec<(usize, usize)> {
    let rows = g.rows();
    let width = g.width();
    let mut live = Vec::new();
    for r in 0..rows {
        for c in 0..width {
            let mut n = 0;
            // Offsets -1, 0, 1 as 0, 1, 2; the centre is skipped by its
            // offset, not by where it lands: on a torus of one or two rows
            // other offsets land on the cell itself and are counted.
            for dr in 0..3 {
                for dc in 0..3 {
                    if (dr != 1 || dc != 1)
                        && g.get_cell((r + rows + dr - 1) % rows, (c + width + dc - 1) % width)
                    {
                        n += 1;
                    }
                }
            }
            if n == 3 || (n == 2 && g.get_cell(r, c)) {
                live.push((r, c));
            }
        }
    }
    live
}

const GLIDER: [(usize, usize); 5] = [(0, 1), (1, 2), (2, 0), (2, 1), (2, 2)];

#[test]
fn dead_grid_stays_dead() {
    for (rows, width) in [(1usize, 128usize), (2, 128), (3, 256), (16, 384), (0, 128), (4, 0)] {
        let g = Grid::initialize(width, rows, 1).unwrap();
        let next = step(g.clone());
        assert_eq!(next, g);
        assert_eq!(life_cells(&next), vec![]);
    }
}

#[test]
fn block_is_a_still_life() {
    for (r, c) in [(1usize, 1usize), (3, 126), (5, 127), (9, 200), (13, 253)] {
        let g = life_grid(16, 256, &[(r, c), (r, c + 1), (r + 1, c), (r + 1, c + 1)]);
        let next = step(g.clone());
        assert_eq!(next, g);
        assert_eq!(life_cells(&next), vec![(r, c), (r, c + 1), (r + 1, c), (r + 1, c + 1)]);
    }
}

#[test]
fn blinker_turns_and_turns_back() {
    for (r, c) in [(2usize, 2usize), (5, 127), (5, 128), (8, 64), (12, 252)] {
        let g = life_grid(16, 256, &[(r, c - 1), (r, c), (r, c + 1)]);
        let once = step(g.clone());
        assert_eq!(life_cells(&once), vec![(r - 1, c), (r, c), (r + 1, c)]);
        assert_ne!(once, g);
        let twice = step(once.clone());
        assert_eq!(twice, g);
    }
}

#[test]
fn blinker_has_period_two_at_every_position_of_a_small_torus() {
    for rows in [4usize, 5] {
        for r in 0..rows {
            for c in [0usize, 1, 63, 126, 127] {
                let left = (c + 127) % 128;
                let right = (c + 1) % 128;
                let up = (r + rows - 1) % rows;
                let down = (r + 1) % rows;
                let g = life_grid(rows, 128, &[(r, left), (r, c), (r, right)]);
                let once = step(g.clone());
                let mut column = vec![(up, c), (r, c), (down, c)];
                column.sort();
                assert_eq!(life_cells(&once), column);
                assert_ne!(once, g);
                assert_eq!(step(once), g);
            }
        }
    }
}

#[test]
fn blinker_in_the_corner_of_several_words() {
    let g = life_grid(4, 256, &[(0, 255), (0, 0), (0, 1)]);
    let once = step(g.clone());
    assert_eq!(life_cells(&once), vec![(0, 0), (1, 0), (3, 0)]);
    assert_eq!(step(once), g);
    let g = life_grid(4, 256, &[(3, 254), (3, 255), (3, 0)]);
    let once = step(g.clone());
    assert_eq!(life_cells(&once), vec![(0, 255), (2, 255), (3, 255)]);
    assert_eq!(step(once), g);
}

#[test]
fn blinker_on_three_rows_does_not_come_back() {
    let g = life_grid(3, 128, &[(1, 4), (1, 5), (1, 6)]);
    let once = step(g.clone());
    assert_eq!(life_cells(&once), vec![(0, 5), (1, 5), (2, 5)]);
    let twice = step(once);
    assert_eq!(
        life_cells(&twice),
        vec![(0, 4), (0, 5), (0, 6), (1, 4), (1, 5), (1, 6), (2, 4), (2, 5), (2, 6)]
    );
    assert_ne!(twice, g);
}

#[test]
fn glider_moves_one_cell_diagonally_in_four_generations() {
    for (rows, width) in [(5usize, 128usize), (8, 128), (128, 128), (16, 256)] {
        let g = life_grid(rows, width, &GLIDER);
        let last = run(g, 4);
        assert_eq!(life_cells(&last), life_shifted(&GLIDER, 1, 1, rows, width));
    }
}

#[test]
fn glider_passes_through_its_four_shapes() {
    let mut g = life_grid(8, 128, &GLIDER);
    g = step(g);
    assert_eq!(life_cells(&g), vec![(1, 0), (1, 2), (2, 1), (2, 2), (3, 1)]);
    g = step(g);
    assert_eq!(life_cells(&g), vec![(1, 2), (2, 0), (2, 2), (3, 1), (3, 2)]);
    g = step(g);
    assert_eq!(life_cells(&g), vec![(1, 1), (2, 2), (2, 3), (3, 1), (3, 2)]);
    g = step(g);
    assert_eq!(life_cells(&g), vec![(1, 2), (2, 3), (3, 1), (3, 2), (3, 3)]);
}

#[test]
fn glider_crosses_the_corner_of_the_torus() {
    let start = life_shifted(&GLIDER, 126, 126, 128, 128);
    let g = life_grid(128, 128, &start);
    let last = run(g, 4);
    assert_eq!(life_cells(&last), life_shifted(&GLIDER, 127, 127, 128, 128));
    // After 512 generations it has gone once round and is back.
    let g = life_grid(128, 128, &GLIDER);
    let back = run(g.clone(), 512);
    assert_eq!(back, g);
}

#[test]
fn glider_on_a_torus_of_four_rows_meets_itself() {
    let g = life_grid(4, 128, &GLIDER);
    let last = run(g, 4);
    assert_eq!(life_cells(&last), vec![(1, 1), (1, 3), (2, 4), (3, 1), (3, 3)]);
}

#[test]
fn top_and_bottom_rows_are_neighbours() {
    let g = life_grid(8, 128, &[(7, 10), (0, 10), (1, 10)]);
    assert_eq!(life_cells(&step(g.clone())), vec![(0, 9), (0, 10), (0, 11)]);
    // Two cells in the bottom row and one in the top row give birth in both.
    let g = life_grid(8, 128, &[(7, 20), (7, 21), (0, 20)]);
    let next = life_cells(&step(g.clone()));
    assert!(next.contains(&(0, 21)));
    assert!(next.contains(&(7, 20)));
}

#[test]
fn left_and_right_columns_are_neighbours_in_a_single_word_row() {
    let g = life_grid(8, 128, &[(3, 127), (3, 0), (3, 1)]);
    assert_eq!(g.cols(), 1);
    assert_eq!(life_cells(&step(g.clone())), vec![(2, 0), (3, 0), (4, 0)]);
    let g = life_grid(8, 128, &[(3, 126), (3, 127), (3, 0)]);
    assert_eq!(life_cells(&step(g.clone())), vec![(2, 127), (3, 127), (4, 127)]);
}

#[test]
fn left_and_right_columns_are_neighbours_across_several_words() {
    let g = life_grid(8, 384, &[(3, 383), (3, 0), (3, 1)]);
    assert_eq!(life_cells(&step(g.clone())), vec![(2, 0), (3, 0), (4, 0)]);
    let g = life_grid(8, 384, &[(3, 382), (3, 383), (3, 0)]);
    assert_eq!(life_cells(&step(g.clone())), vec![(2, 383), (3, 383), (4, 383)]);
}

#[test]
fn cells_on_both_sides_of_a_word_boundary_are_neighbours() {
    let g = life_grid(8, 256, &[(3, 127), (3, 128), (3, 129)]);
    assert_eq!(life_cells(&step(g.clone())), vec![(2, 128), (3, 128), (4, 128)]);
    let g = life_grid(8, 256, &[(3, 126), (3, 127), (3, 128)]);
    assert_eq!(life_cells(&step(g.clone())), vec![(2, 127), (3, 127), (4, 127)]);
}

#[test]
fn cell_with_eight_live_neighbours_dies() {
    let mut full = Vec::new();
    for r in 9..12 {
        for c in 9..12 {
            full.push((r, c));
        }
    }
    let g = life_grid(16, 128, &full);
    let next = step(g.clone());
    assert!(!next.get_cell(10, 10));
    assert_eq!(
        life_cells(&next),
        vec![(8, 10), (9, 9), (9, 11), (10, 8), (10, 12), (11, 9), (11, 11), (12, 10)]
    );
}

#[test]
fn full_grid_dies_out() {
    let mut g = Grid::new(3, 2);
    for r in 0..3 {
        for x in 0..2 {
            g.set_word(r, x, u128::MAX);
        }
    }
    let next = step(g.clone());
    assert_eq!(next, Grid::new(3, 2));
}

#[test]
fn torus_of_one_row_counts_the_row_above_and_below_as_itself() {
    let g = life_grid(1, 128, &[(0, 5)]);
    assert_eq!(life_cells(&step(g.clone())), vec![(0, 4), (0, 5), (0, 6)]);
    let g = life_grid(1, 128, &[(0, 5), (0, 6)]);
    assert_eq!(life_cells(&step(g.clone())), vec![(0, 4), (0, 7)]);
    let g = life_grid(1, 128, &[(0, 5), (0, 6), (0, 7)]);
    assert_eq!(life_cells(&step(g.clone())), vec![(0, 4), (0, 8)]);
}

#[test]
fn torus_of_two_rows_counts_the_other_row_twice() {
    let g = life_grid(2, 128, &[(0, 5), (1, 5)]);
    assert_eq!(life_cells(&step(g.clone())), vec![(0, 4), (0, 5), (0, 6), (1, 4), (1, 5), (1, 6)]);
    let g = life_grid(2, 128, &[(0, 5)]);
    assert_eq!(life_cells(&step(g.clone())), vec![]);
}

#[test]
fn step_agrees_with_counting_neighbours_cell_by_cell() {
    for (rows, cols, seed) in [(1usize, 1usize, 1u64), (2, 1, 2), (3, 2, 3), (7, 3, 4), (12, 2, 42)] {
        let mut g = life_scrambled(rows, cols, seed);
        for _ in 0..4 {
            let want = life_naive_step(&g);
            g = step(g);
            assert_eq!(life_cells(&g), want);
        }
    }
}

#[test]
fn scrambled_grid_has_the_known_populations() {
    let mut g = life_scrambled(12, 2, 42);
    let mut populations = Vec::new();
    for _ in 0..6 {
        populations.push(life_cells(&g).len());
        g = step(g);
    }
    assert_eq!(populations, vec![1540, 808, 777, 732, 711, 699]);
}

#[test]
fn scrambled_grid_has_the_known_words_after_three_generations() {
    let g = run(life_scrambled(12, 2, 42), 3);
    assert_eq!(g.get_word(0, 0), 0xc38069430c040403481c0100800902ce);
    assert_eq!(g.get_word(0, 1), 0x5024602600724040714034203e001081);
    assert_eq!(g.get_word(11, 0), 0x44c06a0310072200601006c0372f0204);
    assert_eq!(g.get_word(11, 1), 0x56483c18007183884e3a310026000022);
}

#[test]
fn next_generation_overwrites_the_buffer() {
    let g = life_grid(8, 128, &[(3, 9), (3, 10), (3, 11)]);
    let mut buffer = life_scrambled(8, 1, 5);
    next_generation(&g, &mut buffer);
    assert_eq!(life_cells(&buffer), vec![(2, 10), (3, 10), (4, 10)]);
    assert_eq!(life_cells(&g), vec![(3, 9), (3, 10), (3, 11)]);
}

#[test]
fn run_of_no_generations_changes_nothing() {
    let g = life_scrambled(5, 2, 9);
    assert_eq!(run(g.clone(), 0), g);
}

#[test]
fn run_is_step_repeated() {
    let g = life_scrambled(6, 2, 11);
    let mut by_steps = g.clone();
    for _ in 0..7 {
        by_steps = step(by_steps);
    }
    assert_eq!(run(g, 7), by_steps);
}

#[test]
fn double_buffer_advances_generation_by_generation() {
    let g = life_grid(8, 128, &GLIDER);
    let mut buffers = DoubleBuffer::new(g.clone());
    assert_eq!(*buffers.current(), g);
    buffers.advance();
    assert_eq!(*buffers.current(), step(g.clone()));
    buffers.advance();
    assert_eq!(*buffers.current(), step(step(g.clone())));
    buffers.run(2);
    assert_eq!(life_cells(buffers.current()), life_shifted(&GLIDER, 1, 1, 8, 128));
    buffers.run(0);
    assert_eq!(life_cells(&buffers.into_grid()), life_shifted(&GLIDER, 1, 1, 8, 128));
}
