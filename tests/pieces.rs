use block_puzzle::generator::{
    block_color_from_index, blended_pool_for, get_random_block_color, piece_for_roll, pool,
    select_weighted_index, shape_cells, sum_weights, turned_piece_cells, ShapeKind, WeightedShape,
    PALETTE_SIZE,
};
use block_puzzle::grid::Grid;
use block_puzzle::shape::{normalize_cells, rotate_90_clockwise, BlockColor, BlockShape};
use block_puzzle::GameMode;

fn entries(weights: &[u64]) -> Vec<WeightedShape> {
    let kinds = [ShapeKind::Dot, ShapeKind::H2, ShapeKind::O];
    weights
        .iter()
        .enumerate()
        .map(|(i, &w)| WeightedShape { shape: kinds[i % 3], weight: w })
        .collect()
}

#[test]
fn rotate_and_normalize() {
    assert_eq!(rotate_90_clockwise(&[(0, 0), (1, 0), (2, 0)]), vec![(0, 0), (0, -1), (0, -2)]);
    assert_eq!(normalize_cells(vec![(0, 0), (0, -1), (0, -2)]), vec![(0, 2), (0, 1), (0, 0)]);
    assert_eq!(normalize_cells(vec![(3, 5), (4, 6)]), vec![(0, 0), (1, 1)]);
    assert_eq!(normalize_cells(vec![]), Vec::<(i32, i32)>::new());
}

#[test]
fn four_rotations_give_back_the_shape() {
    for kind in [ShapeKind::L, ShapeKind::T, ShapeKind::Z, ShapeKind::Cross, ShapeKind::Stair] {
        let start = normalize_cells(shape_cells(kind));
        let mut cur = start.clone();
        for _ in 0..4 {
            cur = rotate_90_clockwise(&cur);
        }
        assert_eq!(normalize_cells(cur), start);
    }
}

#[test]
fn turned_pieces() {
    assert_eq!(turned_piece_cells(ShapeKind::H2, 0), vec![(0, 0), (1, 0)]);
    assert_eq!(turned_piece_cells(ShapeKind::H2, 1), vec![(0, 1), (0, 0)]);
    assert_eq!(turned_piece_cells(ShapeKind::L, 2), vec![(1, 2), (1, 1), (1, 0), (0, 0)]);
}

#[test]
fn weighted_sampling_counts_match_weights() {
    let e = entries(&[2, 5, 10]);
    let total = sum_weights(&e);
    assert_eq!(total, 17);
    let mut counts = [0u64; 3];
    for roll in 0..total {
        counts[select_weighted_index(&e, roll)] += 1;
    }
    assert_eq!(counts, [2, 5, 10]);
    assert_eq!(select_weighted_index(&e, 0), 0);
    assert_eq!(select_weighted_index(&e, 1), 0);
    assert_eq!(select_weighted_index(&e, 2), 1);
    assert_eq!(select_weighted_index(&e, 6), 1);
    assert_eq!(select_weighted_index(&e, 7), 2);
    assert_eq!(select_weighted_index(&e, 16), 2);
}

#[test]
fn weighted_sampling_frequencies_converge() {
    let e = entries(&[2, 5, 10]);
    let mut counts = [0u64; 3];
    let draws = 170_000u64;
    for i in 0..draws {
        // A well-spread sequence of rolls over [0, 17).
        let roll = (i * 7919) % 17;
        counts[select_weighted_index(&e, roll)] += 1;
    }
    let expected = [2.0 / 17.0, 5.0 / 17.0, 10.0 / 17.0];
    for k in 0..3 {
        let freq = counts[k] as f64 / draws as f64;
        assert!((freq - expected[k]).abs() < 0.01);
    }
}

#[test]
fn zero_weight_entries_are_never_picked() {
    let e = entries(&[3, 0, 4]);
    for roll in 0..7 {
        assert_ne!(select_weighted_index(&e, roll), 1);
    }
}

#[test]
fn pools_have_their_weights() {
    assert_eq!(sum_weights(&pool(GameMode::Easy)), 78);
    assert_eq!(sum_weights(&pool(GameMode::Normal)), 164);
    assert_eq!(sum_weights(&pool(GameMode::Happy)), 45);
    assert_eq!(pool(GameMode::Happy)[2], WeightedShape { shape: ShapeKind::O, weight: 10 });
}

#[test]
fn piece_for_roll_is_exact() {
    let happy = pool(GameMode::Happy);
    let color = block_color_from_index(2);
    // Rolls 0..2 pick the dot, 2..7 the domino.
    let p = piece_for_roll(&happy, 3, 1, color);
    assert_eq!(p.cells, vec![(0, 1), (0, 0)]);
    assert_eq!(p.base_shape_name, "SHAPE_H2");
    assert_eq!(p.color, BlockColor { r: 68, g: 96, b: 223, a: 255 });
    let p = piece_for_roll(&happy, 44, 0, color);
    assert_eq!(p.cells, vec![(0, 0), (1, 0), (1, 1), (2, 1)]);
    assert_eq!(p.base_shape_name, "SHAPE_Z");
}

#[test]
fn blended_pool_weights() {
    // Complexity 0: only the easy pool counts, scaled by 600².
    let p = blended_pool_for(0);
    assert_eq!(p.len(), 13 + 14 + 8);
    assert_eq!(sum_weights(&p), 78 * 360000);
    // Complexity 1 (600 and above): only the happy pool.
    assert_eq!(sum_weights(&blended_pool_for(600)), 45 * 360000);
    assert_eq!(sum_weights(&blended_pool_for(5000)), 45 * 360000);
    // Complexity 0.5: easy and happy a quarter each, normal in full.
    assert_eq!(sum_weights(&blended_pool_for(300)), (78 + 45) * 90000 + 164 * 360000);
}

#[test]
fn generated_pieces_are_normalized_pool_shapes() {
    for mode in [GameMode::Easy, GameMode::Normal, GameMode::Happy] {
        for _ in 0..50 {
            let p = BlockShape::generate_for_mode(mode);
            assert!(!p.cells.is_empty());
            assert_eq!(p.cells.iter().map(|c| c.0).min(), Some(0));
            assert_eq!(p.cells.iter().map(|c| c.1).min(), Some(0));
        }
    }
    for c in [0u32, 150, 300, 450, 600] {
        let p = BlockShape::generate_with_complexity(c);
        assert!(!p.cells.is_empty() && p.cells.len() <= 9);
        assert_eq!(p.cells.iter().map(|c| c.0).min(), Some(0));
    }
}

#[test]
fn colors_come_from_the_palette() {
    let palette: Vec<BlockColor> = (0..PALETTE_SIZE).map(block_color_from_index).collect();
    assert_eq!(palette[0], BlockColor { r: 235, g: 177, b: 67, a: 255 });
    assert_eq!(palette[6], BlockColor { r: 227, g: 95, b: 57, a: 255 });
    for _ in 0..30 {
        assert!(palette.contains(&get_random_block_color()));
    }
    let dot = BlockShape::new_dot();
    assert_eq!(dot.cells, vec![(0, 0)]);
    assert!(palette.contains(&dot.color));
}

#[test]
fn rescue_pieces_fit_the_only_hole() {
    let mut grid = Grid::new();
    let filled = BlockColor { r: 9, g: 9, b: 9, a: 255 };
    for y in 0..8 {
        for x in 0..8 {
            grid.set_cell(x, y, Some(filled));
        }
    }
    grid.set_cell(3, 3, None);
    grid.set_cell(4, 3, None);
    let shapes = vec![
        shape_cells(ShapeKind::Dot),
        shape_cells(ShapeKind::H2),
        shape_cells(ShapeKind::H3),
    ];
    let found = grid.find_placeable_shapes_for_empty_spots(5, &shapes);
    let mut cells: Vec<Vec<(i32, i32)>> = found.iter().map(|b| b.cells.clone()).collect();
    cells.sort();
    // The dot, and the horizontal domino (found in two orientations, kept once).
    assert_eq!(cells, vec![vec![(0, 0)], vec![(0, 0), (1, 0)]]);
    for b in &found {
        assert_eq!(b.base_shape_name, "HELPER_SHAPE");
    }
    // With at most one cell only the dot remains; with none, nothing.
    let found = grid.find_placeable_shapes_for_empty_spots(1, &shapes);
    assert_eq!(found.len(), 1);
    assert!(grid.find_placeable_shapes_for_empty_spots(0, &shapes).is_empty());
}

#[test]
fn rotate_accepts_min_y() {
    assert_eq!(rotate_90_clockwise(&[(0, i32::MIN)]), vec![(i32::MIN, 0)]);
}

#[test]
fn rescue_accepts_far_offsets() {
    let grid = Grid::new();
    let far = vec![vec![(2_000_000, 0)], vec![(-3_000_000, 5), (-2_999_999, 5)]];
    let found = grid.find_placeable_shapes_for_empty_spots(2, &far);
    let mut cells: Vec<Vec<(i32, i32)>> = found.iter().map(|b| b.cells.clone()).collect();
    cells.sort();
    assert_eq!(cells, vec![vec![(0, 0)], vec![(0, 0), (1, 0)], vec![(0, 1), (0, 0)]]);
}

#[test]
fn generated_pieces_carry_their_shape_name() {
    let names = [
        "SHAPE_DOT", "SHAPE_H2", "SHAPE_L_SMALL", "SHAPE_H3", "SHAPE_I", "SHAPE_O", "SHAPE_L",
        "SHAPE_T", "SHAPE_Z", "SHAPE_CROSS", "SHAPE_RECT_2X3", "SHAPE_SQUARE_3X3",
        "SHAPE_L_LARGE", "SHAPE_STAIR",
    ];
    for _ in 0..40 {
        let p = BlockShape::generate_for_mode(GameMode::Happy);
        assert!(names.contains(&p.base_shape_name));
        let q = BlockShape::generate_with_complexity(300);
        assert!(names.contains(&q.base_shape_name));
        // A single cell can only come from the dot.
        if p.cells.len() == 1 {
            assert_eq!(p.base_shape_name, "SHAPE_DOT");
        }
        if q.cells.len() == 9 {
            assert_eq!(q.base_shape_name, "SHAPE_SQUARE_3X3");
        }
    }
    assert_eq!(BlockShape::new_dot().base_shape_name, "SHAPE_DOT");
}
