use glyphmosaic::extract::extract_cells;
use glyphmosaic::normalize::{normalize_min_max, normalize_quantile};
use glyphmosaic::sig::{Sig, SCALE};

fn sig(b: u32, ex: u32, ey: u32) -> Sig {
    Sig { b, ex, ey }
}

#[test]
fn extract_uniform_cell_has_no_edges() {
    // 2x2 all-white image, one 2x2 cell: no pixel is interior, so only
    // brightness accumulates.
    let img = vec![255u8; 4];
    let sigs = extract_cells(&img, 2, 2, 2, 2);
    assert_eq!(sigs.len(), 1);
    assert_eq!(sigs[0], sig(4 * 255, 0, 0));
}

#[test]
fn extract_center_gradient() {
    // 3x3 image, one cell: only the center pixel is interior.
    let img = vec![10u8, 20, 30, 40, 50, 60, 70, 80, 90];
    let sigs = extract_cells(&img, 3, 3, 3, 3);
    assert_eq!(sigs.len(), 1);
    // brightness: sum of all intensities.
    // gx at (1,1): (10 + 2*40 + 70) - (30 + 2*60 + 90) = -80.
    // gy at (1,1): (10 + 2*20 + 30) - (70 + 2*80 + 90) = -240.
    assert_eq!(sigs[0], sig(450, 80, 240));
}

#[test]
fn extract_border_strip_contributes_no_edge_energy() {
    // Extreme intensities confined to the 1-pixel border of a 3x3 buffer
    // with a uniform center: every gradient cancels, whatever the border
    // holds, because border pixels themselves contribute no edge energy and
    // the center sees a symmetric neighborhood.
    let img = vec![255u8, 0, 255, 0, 7, 0, 255, 0, 255];
    let sigs = extract_cells(&img, 3, 3, 3, 3);
    assert_eq!(sigs.len(), 1);
    assert_eq!(sigs[0].ex, 0);
    assert_eq!(sigs[0].ey, 0);
}

#[test]
fn extract_two_by_two_grid() {
    // The 4x4 image of four uniform 2x2 cells with intensities 0, 85, 170,
    // 255; every interior pixel sees the same gradient magnitudes.
    let img = vec![
        0u8, 0, 85, 85, //
        0, 0, 85, 85, //
        170, 170, 255, 255, //
        170, 170, 255, 255,
    ];
    let sigs = extract_cells(&img, 4, 4, 2, 2);
    assert_eq!(sigs.len(), 4);
    assert_eq!(sigs[0], sig(0, 340, 680));
    assert_eq!(sigs[1], sig(4 * 85, 340, 680));
    assert_eq!(sigs[2], sig(4 * 170, 340, 680));
    assert_eq!(sigs[3], sig(4 * 255, 340, 680));
}

#[test]
fn extract_ignores_remainder_strip() {
    // 5x3 image with 2x3 cells: only two whole cells, the fifth column is
    // ignored.
    let img: Vec<u8> = (1..=15).collect();
    let sigs = extract_cells(&img, 5, 3, 2, 3);
    assert_eq!(sigs.len(), 2);
    // Cell 0 covers columns 0..2, cell 1 columns 2..4, of rows 0..3.
    let b0: u32 = [1u32, 2, 6, 7, 11, 12].iter().sum();
    let b1: u32 = [3u32, 4, 8, 9, 13, 14].iter().sum();
    assert_eq!(sigs[0].b, b0);
    assert_eq!(sigs[1].b, b1);
}

#[test]
fn min_max_rescales_and_skips_blank_cells() {
    let sigs = vec![sig(0, 50, 60), sig(10, 20, 30), sig(30, 10, 90)];
    let n = normalize_min_max(&sigs);
    // The blank signature is left at its raw values.
    assert_eq!(n[0], sig(0, 50, 60));
    // Extrema over the two non-blank ones: b 10..30, ex 10..20, ey 30..90.
    assert_eq!(n[1], sig(0, SCALE, 0));
    assert_eq!(n[2], sig(SCALE, 0, SCALE));
}

#[test]
fn min_max_boundary_values_land_on_scale_ends() {
    // The 4x4 grid image: brightness spans 340..1020 over non-blank cells,
    // while both edge components are constant (degenerate, so they rescale
    // to 0).
    let raw = vec![
        sig(0, 340, 680),
        sig(340, 340, 680),
        sig(680, 340, 680),
        sig(1020, 340, 680),
    ];
    let n = normalize_min_max(&raw);
    assert_eq!(n[0], sig(0, 340, 680));
    assert_eq!(n[1], sig(0, 0, 0));
    assert_eq!(n[2], sig(SCALE / 2, 0, 0));
    assert_eq!(n[3], sig(SCALE, 0, 0));
}

#[test]
fn min_max_degenerate_component_maps_to_zero() {
    // Brightness is constant over the non-blank signatures: the degenerate
    // range rescales it to 0 for every one of them.
    let sigs = vec![sig(5, 1, 2), sig(5, 3, 4)];
    let n = normalize_min_max(&sigs);
    assert_eq!(n[0], sig(0, 0, 0));
    assert_eq!(n[1], sig(0, SCALE, SCALE));
}

#[test]
fn extract_one_pixel_wide_buffer_has_no_edges() {
    // A buffer one pixel wide has no interior pixel at all: every pixel
    // sits on the border strip and contributes no edge energy.
    let img = vec![10u8, 250, 30, 240];
    let sigs = extract_cells(&img, 1, 4, 1, 4);
    assert_eq!(sigs.len(), 1);
    assert_eq!(sigs[0], sig(530, 0, 0));
}

#[test]
fn min_max_all_blank_leaves_everything_raw() {
    let sigs = vec![sig(0, 5, 6), sig(0, 7, 8)];
    let n = normalize_min_max(&sigs);
    assert_eq!(n, sigs);
}

#[test]
fn quantile_assigns_scaled_ranks_per_component() {
    let sigs = vec![sig(5, 1, 1), sig(3, 9, 1), sig(5, 2, 7)];
    let n = normalize_quantile(&sigs);
    let q0 = 0u32;
    let q1 = SCALE / 3;
    let q2 = 2 * SCALE / 3;
    // b values [5, 3, 5]: the tie between index 0 and 2 keeps index order.
    assert_eq!(n[0].b, q1);
    assert_eq!(n[1].b, q0);
    assert_eq!(n[2].b, q2);
    // ex values [1, 9, 2].
    assert_eq!(n[0].ex, q0);
    assert_eq!(n[1].ex, q2);
    assert_eq!(n[2].ex, q1);
    // ey values [1, 1, 7]: tie broken by index.
    assert_eq!(n[0].ey, q0);
    assert_eq!(n[1].ey, q1);
    assert_eq!(n[2].ey, q2);
}

#[test]
fn quantile_values_are_a_permutation_of_scaled_ranks() {
    let sigs = vec![
        sig(900, 3, 77),
        sig(900, 3, 77),
        sig(12, 900, 0),
        sig(500, 500, 500),
    ];
    let n = normalize_quantile(&sigs);
    let expected: Vec<u32> = (0..4u32).map(|k| k * SCALE / 4).collect();
    let mut bs: Vec<u32> = n.iter().map(|s| s.b).collect();
    let mut exs: Vec<u32> = n.iter().map(|s| s.ex).collect();
    let mut eys: Vec<u32> = n.iter().map(|s| s.ey).collect();
    bs.sort();
    exs.sort();
    eys.sort();
    assert_eq!(bs, expected);
    assert_eq!(exs, expected);
    assert_eq!(eys, expected);
}

#[test]
fn quantile_of_empty_collection_is_empty() {
    let sigs: Vec<Sig> = Vec::new();
    let n = normalize_quantile(&sigs);
    assert!(n.is_empty());
}
