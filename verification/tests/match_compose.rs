use glyphmosaic::compose::compose;
use glyphmosaic::extract::extract_cells;
use glyphmosaic::matcher::{best_match, distance};
use glyphmosaic::normalize::normalize_min_max;
use glyphmosaic::sig::{Sig, SCALE};

fn sig(b: u32, ex: u32, ey: u32) -> Sig {
    Sig { b, ex, ey }
}

#[test]
fn distance_weighs_brightness_down() {
    // Twenty times the squared distance: brightness difference counts once,
    // each edge difference twenty times.
    let d = distance(&sig(0, 3, 4), &sig(1, 0, 0));
    assert_eq!(d, 1 + 20 * 9 + 20 * 16);
}

#[test]
fn matcher_picks_nearest() {
    let alphabet = vec![sig(0, 0, 0), sig(100, 0, 0), sig(0, 100, 0)];
    assert_eq!(best_match(&sig(2, 0, 0), &alphabet), 0);
    assert_eq!(best_match(&sig(90, 0, 0), &alphabet), 1);
    assert_eq!(best_match(&sig(0, 98, 1), &alphabet), 2);
}

#[test]
fn matcher_tie_break_takes_lower_index() {
    // Two identical alphabet entries: the first one wins for any target.
    let alphabet = vec![sig(7, 7, 7), sig(5, 5, 5), sig(5, 5, 5)];
    assert_eq!(best_match(&sig(5, 5, 5), &alphabet), 1);
    assert_eq!(best_match(&sig(0, 0, 0), &alphabet), 1);
    // Equidistant distinct entries: still the earlier one.
    let equidistant = vec![sig(0, 0, 0), sig(2, 0, 0)];
    assert_eq!(best_match(&sig(1, 0, 0), &equidistant), 0);
}

#[test]
fn two_by_two_grid_matches_hand_computed_choices() {
    // The 4x4 image of four uniform 2x2 cells (intensities 0, 85, 170, 255)
    // against a three-glyph alphabet with explicit normalized signatures.
    let img = vec![
        0u8, 0, 85, 85, //
        0, 0, 85, 85, //
        170, 170, 255, 255, //
        170, 170, 255, 255,
    ];
    let cells = normalize_min_max(&extract_cells(&img, 4, 4, 2, 2));
    // Hand-computed normalized cell signatures: the blank cell keeps its raw
    // triple, the rest collapse to pure brightness.
    assert_eq!(cells[0], sig(0, 340, 680));
    assert_eq!(cells[1], sig(0, 0, 0));
    assert_eq!(cells[2], sig(SCALE / 2, 0, 0));
    assert_eq!(cells[3], sig(SCALE, 0, 0));
    let alphabet = vec![sig(0, 0, 0), sig(SCALE / 2, 0, 0), sig(SCALE, 0, 0)];
    // Cell 0: d(g0) = 20*(340^2 + 680^2), d(g1) adds 32768^2 on top: g0 wins.
    // The other cells sit exactly on one alphabet entry each.
    let choices: Vec<usize> = cells.iter().map(|c| best_match(c, &alphabet)).collect();
    assert_eq!(choices, vec![0, 0, 1, 2]);
}

#[test]
fn compose_tiles_cells_and_zeroes_remainder() {
    // 5x3 output, 2x3 cells: two whole cells, the fifth column stays black.
    let g0: Vec<u8> = vec![1, 2, 3, 4, 5, 6];
    let g1: Vec<u8> = vec![7, 8, 9, 10, 11, 12];
    let glyphs = vec![g0, g1];
    let choices = vec![0usize, 1];
    let out = compose(5, 3, 2, 3, &glyphs, &choices);
    assert_eq!(
        out,
        vec![
            1, 2, 7, 8, 0, //
            3, 4, 9, 10, 0, //
            5, 6, 11, 12, 0,
        ]
    );
}

#[test]
fn compose_repeats_one_glyph() {
    let glyphs = vec![vec![9u8, 8, 7, 6]];
    let choices = vec![0usize; 4];
    let out = compose(4, 4, 2, 2, &glyphs, &choices);
    assert_eq!(
        out,
        vec![
            9, 8, 9, 8, //
            7, 6, 7, 6, //
            9, 8, 9, 8, //
            7, 6, 7, 6,
        ]
    );
}
