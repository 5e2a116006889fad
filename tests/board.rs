use block_puzzle::grid::Grid;
use block_puzzle::shape::{BlockColor, BlockShape};

const FILLED: BlockColor = BlockColor { r: 255, g: 0, b: 0, a: 255 };

fn piece(cells: &[(i32, i32)]) -> BlockShape {
    BlockShape { cells: cells.to_vec(), color: FILLED, base_shape_name: "TEST" }
}

fn ratio_value(num: u64, den: u64) -> f64 {
    num as f64 / den as f64
}

fn full_grid() -> Grid {
    let mut grid = Grid::new();
    for y in 0..8 {
        for x in 0..8 {
            grid.set_cell(x, y, Some(FILLED));
        }
    }
    grid
}

#[test]
fn test_connected_regions_simple() {
    let mut grid = full_grid();
    grid.set_cell(0, 0, None);
    grid.set_cell(1, 0, None);
    grid.set_cell(0, 1, None);
    grid.set_cell(1, 1, None);
    for y in 5..8 {
        for x in 4..7 {
            grid.set_cell(x, y, None);
        }
    }
    let regions = grid.analyze_connected_empty_regions();
    assert_eq!(regions.len(), 2);
    assert_eq!(regions[0].cell_count, 9);
    assert_eq!(regions[0].width, 3);
    assert_eq!(regions[0].height, 3);
    assert!(ratio_value(regions[0].shape_score.num, regions[0].shape_score.den) > 0.9);
    assert_eq!(regions[1].cell_count, 4);
    assert_eq!(regions[1].width, 2);
    assert_eq!(regions[1].height, 2);
    assert!(ratio_value(regions[1].shape_score.num, regions[1].shape_score.den) > 0.9);

    // Largest region 9 cells: 0.25; square: 0; 13 of 64 empty: 0.15; no 4×4
    // room: 0.15; fragmentation 2 / 13 × 0.35. Total 785 / 1300 ≈ 0.604.
    let difficulty = grid.get_difficulty_score();
    assert_eq!((difficulty.num, difficulty.den), (785, 1300));
    let d = ratio_value(difficulty.num, difficulty.den);
    assert!(d > 0.6 && d < 0.61);
}

#[test]
fn test_difficulty_score_extreme_cases() {
    let grid = full_grid();
    let d = grid.get_difficulty_score();
    assert_eq!(ratio_value(d.num, d.den), 1.0);

    let grid = Grid::new();
    let d = grid.get_difficulty_score();
    assert!(ratio_value(d.num, d.den) < 0.2);
}

#[test]
fn test_fragmented_regions() {
    let mut grid = Grid::new();
    for y in 0..8 {
        for x in 0..8 {
            if (x + y) % 2 == 0 {
                grid.set_cell(x, y, Some(FILLED));
            }
        }
    }
    let regions = grid.analyze_connected_empty_regions();
    assert_eq!(regions.len(), 32);
    for region in &regions {
        assert_eq!(region.cell_count, 1);
        assert_eq!(region.width, 1);
        assert_eq!(region.height, 1);
    }
    let d = grid.get_difficulty_score();
    assert!(ratio_value(d.num, d.den) > 0.7);
}

#[test]
fn empty_board_has_one_region_and_low_difficulty() {
    let grid = Grid::new();
    let regions = grid.analyze_connected_empty_regions();
    assert_eq!(regions.len(), 1);
    assert_eq!(regions[0].cell_count, 64);
    assert_eq!((regions[0].width, regions[0].height), (8, 8));
    assert!(regions[0].can_fit_4x4_block());
    assert!(regions[0].is_square_like());
    // Only fragmentation counts: 1 / 64 × 0.35.
    let d = grid.get_difficulty_score();
    assert_eq!((d.num, d.den), (35, 6400));
}

#[test]
fn full_board_has_no_region() {
    let grid = full_grid();
    assert!(grid.analyze_connected_empty_regions().is_empty());
    let d = grid.get_difficulty_score();
    assert_eq!((d.num, d.den), (1, 1));
}

#[test]
fn narrow_strip_scores_low_shape() {
    // One empty row: 8 cells, 8 wide, 1 high.
    let mut grid = full_grid();
    for x in 0..8 {
        grid.set_cell(x, 3, None);
    }
    let regions = grid.analyze_connected_empty_regions();
    assert_eq!(regions.len(), 1);
    assert_eq!((regions[0].min_x, regions[0].max_x), (0, 7));
    assert_eq!((regions[0].min_y, regions[0].max_y), (3, 3));
    assert_eq!((regions[0].shape_score.num, regions[0].shape_score.den), (8, 64));
    assert!(!regions[0].is_square_like());
    // 0.25 (size 8) + 0.25 (shape 1/8) + 0.15 (8 of 64 empty) + 0.15 (no 4×4)
    // + 0.35 / 8 = 0.84375.
    let d = grid.get_difficulty_score();
    assert_eq!((d.num, d.den), (675, 800));
}

#[test]
fn regions_sorted_largest_first_in_scan_order() {
    let mut grid = full_grid();
    // Three pockets: 1 cell at (7,0), 2 cells at (0,7)-(1,7), 1 cell at (3,3).
    grid.set_cell(7, 0, None);
    grid.set_cell(0, 7, None);
    grid.set_cell(1, 7, None);
    grid.set_cell(3, 3, None);
    let regions = grid.analyze_connected_empty_regions();
    let counts: Vec<usize> = regions.iter().map(|r| r.cell_count).collect();
    assert_eq!(counts, vec![2, 1, 1]);
    assert_eq!(regions[1].cells, vec![(7, 0)]);
    assert_eq!(regions[2].cells, vec![(3, 3)]);
}

#[test]
fn can_place_rejects_out_of_bounds_and_occupied() {
    let mut grid = Grid::new();
    let bar = piece(&[(0, 0), (1, 0), (2, 0)]);
    assert!(grid.can_place_block(&bar, 0, 0));
    assert!(grid.can_place_block(&bar, 5, 7));
    assert!(!grid.can_place_block(&bar, 6, 0));
    assert!(!grid.can_place_block(&bar, -1, 0));
    assert!(!grid.can_place_block(&bar, 0, 8));
    grid.set_cell(2, 4, Some(FILLED));
    assert!(!grid.can_place_block(&bar, 0, 4));
    assert!(grid.can_place_block(&bar, 3, 4));
    // The check leaves the board unchanged.
    assert_eq!(grid.get_cell(2, 4), Some(FILLED));
    assert_eq!(grid.get_cell(3, 4), None);
    // A piece with no cells fits anywhere.
    assert!(grid.can_place_block(&piece(&[]), -100, 100));
}

#[test]
fn tolerance_prefers_exact_then_orthogonal() {
    let grid = Grid::new();
    let dot = piece(&[(0, 0)]);
    assert_eq!(grid.can_place_block_with_tolerance(&dot, 3, 3, 1), (true, 3, 3));
    // Off the left edge: the right neighbour is the first that fits.
    assert_eq!(grid.can_place_block_with_tolerance(&dot, -1, 3, 1), (true, 0, 3));
    // Off the top edge: down comes before left and right.
    assert_eq!(grid.can_place_block_with_tolerance(&dot, 3, -1, 1), (true, 3, 0));
}

#[test]
fn tolerance_takes_diagonal_before_ring() {
    let mut grid = full_grid();
    // Only (4,4) is free; a dot aimed at (3,3) has exact and orthogonal
    // positions occupied, so the down-right diagonal is taken.
    grid.set_cell(4, 4, None);
    let dot = piece(&[(0, 0)]);
    assert_eq!(grid.can_place_block_with_tolerance(&dot, 3, 3, 1), (true, 4, 4));
    assert_eq!(grid.can_place_block_with_tolerance(&dot, 3, 3, 3), (true, 4, 4));
    // Also free (5,3), two to the right: with tolerance 2 the diagonal still wins.
    grid.set_cell(5, 3, None);
    assert_eq!(grid.can_place_block_with_tolerance(&dot, 3, 3, 2), (true, 4, 4));
}

#[test]
fn tolerance_ring_search_and_failure() {
    let mut grid = full_grid();
    grid.set_cell(6, 1, None);
    grid.set_cell(1, 6, None);
    let dot = piece(&[(0, 0)]);
    // Tolerance 1 does not reach two cells away.
    assert_eq!(grid.can_place_block_with_tolerance(&dot, 4, 3, 1), (false, 4, 3));
    // Tolerance 3: the ring is scanned row by row, so (6,1) (dy = -2) comes
    // before (1,6) (dy = 3).
    assert_eq!(grid.can_place_block_with_tolerance(&dot, 4, 3, 3), (true, 6, 1));
}

#[test]
fn place_block_fills_exact_cells() {
    let mut grid = Grid::new();
    let color = BlockColor { r: 1, g: 2, b: 3, a: 255 };
    let l = BlockShape { cells: vec![(0, 0), (0, 1), (1, 1)], color, base_shape_name: "L" };
    grid.place_block(&l, 2, 5);
    assert_eq!(grid.get_cell(2, 5), Some(color));
    assert_eq!(grid.get_cell(2, 6), Some(color));
    assert_eq!(grid.get_cell(3, 6), Some(color));
    assert_eq!(grid.get_cell(3, 5), None);
    let r = grid.get_filled_ratio();
    assert_eq!((r.num, r.den), (3, 64));
    // Cells off the board are skipped.
    grid.place_block(&l, 7, 7);
    assert_eq!(grid.get_cell(7, 7), Some(color));
    assert_eq!(grid.get_filled_ratio().num, 4);
}

#[test]
fn clear_row_and_column_once() {
    let mut grid = Grid::new();
    for x in 0..8 {
        grid.set_cell(x, 2, Some(FILLED));
    }
    for y in 0..8 {
        grid.set_cell(5, y, Some(FILLED));
    }
    grid.set_cell(0, 0, Some(FILLED));
    let (rows, cols) = grid.check_and_clear();
    assert_eq!(rows, vec![2]);
    assert_eq!(cols, vec![5]);
    assert_eq!(grid.get_cell(5, 2), None);
    assert_eq!(grid.get_cell(0, 0), Some(FILLED));
    assert_eq!(grid.get_filled_ratio().num, 1);
}

#[test]
fn clear_without_full_lines_changes_nothing() {
    let mut grid = Grid::new();
    for x in 0..7 {
        grid.set_cell(x, 0, Some(FILLED));
    }
    let (rows, cols) = grid.check_and_clear();
    assert!(rows.is_empty() && cols.is_empty());
    assert_eq!(grid.get_filled_ratio().num, 7);
}

#[test]
fn clear_full_board_reports_every_line() {
    let mut grid = full_grid();
    let (rows, cols) = grid.check_and_clear();
    assert_eq!(rows, (0..8).collect::<Vec<usize>>());
    assert_eq!(cols, (0..8).collect::<Vec<usize>>());
    assert_eq!(grid.get_filled_ratio().num, 0);
}

#[test]
fn almost_complete_lines() {
    let mut grid = Grid::new();
    for x in 0..7 {
        grid.set_cell(x, 1, Some(FILLED));
    }
    for y in 2..8 {
        grid.set_cell(7, y, Some(FILLED));
    }
    let (rows, cols) = grid.get_almost_complete_lines(1);
    assert_eq!(rows, vec![1]);
    assert!(cols.is_empty());
    let (rows, cols) = grid.get_almost_complete_lines(2);
    assert!(rows.is_empty());
    assert_eq!(cols, vec![7]);
    let (rows, cols) = grid.get_almost_complete_lines(7);
    assert_eq!(rows, vec![2, 3, 4, 5, 6, 7]);
    assert_eq!(cols, vec![0, 1, 2, 3, 4, 5, 6]);
}
