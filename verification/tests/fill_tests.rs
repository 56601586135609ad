use bitwise_life::grid::{fill_chunks, fill_words, Grid};
use bitwise_life::seed::{randomize_cells, randomize_chunks};

const STALE: u128 = 0x5555_5555_5555_5555_5555_5555_5555_5555;

fn fill_stale(rows: usize, cols: usize) -> Grid {
    let mut g = Grid::new(rows, cols);
    for y in 0..rows {
        for x in 0..cols {
            g.set_word(y, x, STALE);
        }
    }
    g
}

fn fill_numbered(count: usize) -> Vec<u128> {
    (0..count).map(|k| (k as u128 + 1) << 100 | k as u128).collect()
}

#[test]
fn fill_words_lays_the_words_out_row_by_row() {
    let mut g = fill_stale(3, 2);
    let words = vec![10u128, 11, 20, 21, 30, 31];
    fill_words(&mut g, &words);
    assert_eq!((g.rows(), g.cols()), (3, 2));
    assert_eq!((g.get_word(0, 0), g.get_word(0, 1)), (10, 11));
    assert_eq!((g.get_word(1, 0), g.get_word(1, 1)), (20, 21));
    assert_eq!((g.get_word(2, 0), g.get_word(2, 1)), (30, 31));
}

#[test]
fn fill_words_replaces_every_word() {
    for (rows, cols) in [(1usize, 1usize), (1, 5), (7, 1), (4, 3)] {
        let mut g = fill_stale(rows, cols);
        let words = fill_numbered(rows * cols);
        fill_words(&mut g, &words);
        for y in 0..rows {
            for x in 0..cols {
                assert_eq!(g.get_word(y, x), words[y * cols + x]);
                assert_ne!(g.get_word(y, x), STALE);
            }
        }
    }
}

#[test]
fn fill_words_sets_the_cells_from_the_top_lane() {
    let mut g = Grid::new(2, 2);
    fill_words(&mut g, &vec![1u128 << 127, 1, 0, 0b101]);
    for c in 0..256 {
        assert_eq!(g.get_cell(0, c), c == 0 || c == 255);
        assert_eq!(g.get_cell(1, c), c == 253 || c == 255);
    }
}

#[test]
fn fill_words_of_a_grid_without_words_takes_none() {
    let mut g = Grid::new(0, 2);
    fill_words(&mut g, &vec![]);
    assert_eq!((g.rows(), g.cols()), (0, 2));
    let mut g = Grid::new(3, 0);
    fill_words(&mut g, &vec![]);
    assert_eq!((g.rows(), g.cols()), (3, 0));
}

#[test]
fn fill_chunks_lays_the_words_out_chunk_by_chunk() {
    let mut chunks = fill_stale(6, 2).split(3);
    let words = fill_numbered(12);
    fill_chunks(&mut chunks, &words);
    assert_eq!(chunks.len(), 3);
    for z in 0..3 {
        assert_eq!((chunks[z].rows(), chunks[z].cols()), (2, 2));
        for y in 0..2 {
            for x in 0..2 {
                assert_eq!(chunks[z].get_word(y, x), words[(z * 2 + y) * 2 + x]);
                assert_ne!(chunks[z].get_word(y, x), STALE);
            }
        }
    }
    assert_eq!(chunks[0].get_word(0, 0), words[0]);
    assert_eq!(chunks[1].get_word(0, 1), words[5]);
    assert_eq!(chunks[2].get_word(1, 1), words[11]);
}

#[test]
fn filled_chunks_laid_end_to_end_are_the_filled_grid() {
    for (rows, cols, parts) in [(6usize, 2usize, 3usize), (8, 1, 8), (8, 3, 1), (12, 2, 4)] {
        let words = fill_numbered(rows * cols);
        let mut whole = fill_stale(rows, cols);
        fill_words(&mut whole, &words);
        let mut chunks = fill_stale(rows, cols).split(parts);
        fill_chunks(&mut chunks, &words);
        assert_eq!(Grid::join(chunks), whole);
    }
}

#[test]
fn fill_chunks_of_chunks_without_rows_takes_no_words() {
    let mut chunks = Grid::new(0, 2).split(3);
    fill_chunks(&mut chunks, &vec![]);
    assert_eq!(chunks.len(), 3);
    for chunk in chunks.iter() {
        assert_eq!((chunk.rows(), chunk.cols()), (0, 2));
    }
}

#[test]
fn randomize_cells_replaces_every_word() {
    let mut g = fill_stale(16, 2);
    randomize_cells(&mut g);
    assert_eq!((g.rows(), g.cols()), (16, 2));
    // A drawn word is the stale one with probability 2^-128.
    for y in 0..16 {
        for x in 0..2 {
            assert_ne!(g.get_word(y, x), STALE);
        }
    }
}

#[test]
fn randomize_chunks_replaces_every_word_of_every_chunk() {
    let mut chunks = fill_stale(12, 2).split(4);
    randomize_chunks(&mut chunks);
    assert_eq!(chunks.len(), 4);
    let mut seen = Vec::new();
    for chunk in chunks.iter() {
        assert_eq!((chunk.rows(), chunk.cols()), (3, 2));
        for y in 0..3 {
            for x in 0..2 {
                let w = chunk.get_word(y, x);
                assert_ne!(w, STALE);
                assert!(!seen.contains(&w));
                seen.push(w);
            }
        }
    }
    assert_eq!(seen.len(), 24);
}

#[test]
fn randomize_cells_of_a_grid_without_words_leaves_it() {
    let mut g = Grid::new(0, 3);
    randomize_cells(&mut g);
    assert_eq!(g, Grid::new(0, 3));
    let mut g = Grid::new(4, 0);
    randomize_cells(&mut g);
    assert_eq!(g, Grid::new(4, 0));
}
