use plotting::fixed::{distance, div_floor, within_limit, LIMIT, ONE};
use plotting::math::{map_points, meshgrid, nearest_position};
use plotting::plot::{min, double_max, double_min, Colormap, Linspace};

#[test]
fn linspace_holds_both_endpoints() {
    let grid = Linspace::linspace(-10 * ONE, 10 * ONE, 20);
    assert_eq!(grid.len(), 21);
    assert_eq!(grid[0], -10 * ONE);
    assert_eq!(grid[20], 10 * ONE);
    assert_eq!(grid[7], -3 * ONE);
    for pair in grid.windows(2) {
        assert!(pair[0] < pair[1]);
    }
}

#[test]
fn linspace_rounds_toward_negative_infinity() {
    assert_eq!(Linspace::linspace(0, 1, 2), vec![0, 0, 1]);
    assert_eq!(Linspace::linspace(0, -1, 2), vec![0, -1, -1]);
    assert_eq!(Linspace::linspace(5, 5, 3), vec![5, 5, 5, 5]);
    assert_eq!(Linspace::linspace(7, 9, 0), vec![7]);
    assert_eq!(Linspace::linspace(i64::MIN, i64::MAX, 1), vec![i64::MIN, i64::MAX]);
    assert_eq!(Linspace::linspace(i64::MAX, i64::MIN, 3)[3], i64::MIN);
}

#[test]
fn map_points_spans_the_interval() {
    let grid = Linspace::linspace(0, 4 * ONE, 4);
    let up = map_points(&grid, (100 * ONE, 900 * ONE));
    assert_eq!(up.len(), 5);
    assert_eq!(up[0], (0, 100 * ONE));
    assert_eq!(up[2], (2 * ONE, 500 * ONE));
    assert_eq!(up[4], (4 * ONE, 900 * ONE));
    let down = map_points(&grid, (900 * ONE, 100 * ONE));
    assert_eq!(down[0].1, 900 * ONE);
    assert_eq!(down[4].1, 100 * ONE);
    for pair in down.windows(2) {
        assert!(pair[0].1 > pair[1].1);
    }
    assert_eq!(map_points(&[3], (5, 9)), vec![(3, 5)]);
    assert!(map_points(&[], (5, 9)).is_empty());
}

#[test]
fn nearest_position_prefers_the_first_of_equals() {
    let window = vec![(0, 10), (10, 20), (20, 30), (10, 40)];
    assert_eq!(nearest_position(5, &window, false), 0);
    assert_eq!(nearest_position(6, &window, false), 1);
    assert_eq!(nearest_position(10, &window, false), 1);
    assert_eq!(nearest_position(i64::MAX, &window, false), 2);
    assert_eq!(nearest_position(41, &window, true), 3);
    assert_eq!(nearest_position(i64::MIN, &[(i64::MAX, 0), (0, 0)], false), 1);
}

#[test]
fn extremes_of_slices() {
    assert_eq!(min(&[3, 1, 2, 1]), (1, 1));
    assert_eq!(min(&[]), (i64::MAX, 0));
    assert_eq!(double_min(&[(3, -1), (1, 5)]), (1, -1));
    assert_eq!(double_max(&[(3, -1), (1, 5)]), (3, 5));
    assert_eq!(double_min(&[]), (i64::MAX, i64::MAX));
    assert_eq!(double_max(&[]), (i64::MIN, i64::MIN));
}

#[test]
fn hot_colormap_band_boundaries() {
    let table = Colormap::new("hot", &[0, ONE, 2 * ONE, 3 * ONE]);
    assert_eq!(table.0, vec![(0, 0, 0), (ONE, 0, 0), (ONE, ONE, 0), (ONE, ONE, ONE)]);
}

#[test]
fn hot_colormap_follows_rank_not_position() {
    let table = Colormap::new("hot", &[30, 10, 20, 10, 40, 25, 35]);
    // ranks: 30 -> 4, 10 -> 1 (both), 20 -> 2, 40 -> 6, 25 -> 3, 35 -> 5
    assert_eq!(table.0[0], (ONE, ONE, 0));
    assert_eq!(table.0[1], (ONE / 2, 0, 0));
    assert_eq!(table.0[3], (ONE / 2, 0, 0));
    assert_eq!(table.0[2], (ONE, 0, 0));
    assert_eq!(table.0[4], (ONE, ONE, ONE));
    assert_eq!(table.0[5], (ONE, ONE / 2, 0));
    assert_eq!(table.0[6], (ONE, ONE, ONE / 2));
}

#[test]
fn unknown_colormap_is_black() {
    let table = Colormap::new("cool", &[5, 1, 3]);
    assert_eq!(table.0, vec![(0, 0, 0); 3]);
    assert!(Colormap::new("hot", &[]).0.is_empty());
    assert_eq!(Colormap::new("hot", &[9]).0, vec![(0, 0, 0)]);
}

#[test]
fn meshgrid_lays_out_rows_and_columns() {
    let (x, y) = meshgrid(&[1, 2, 3], &[10, 20]);
    assert_eq!(x.shape(), (2, 3));
    assert_eq!(y.shape(), (2, 3));
    for i in 0..2 {
        for j in 0..3 {
            assert_eq!(x.get(i, j), Some([1, 2, 3][j]));
            assert_eq!(y.get(i, j), Some([10, 20][i]));
        }
    }
    assert_eq!(x.get(2, 0), None);
    assert_eq!(x.get(0, 3), None);
}

#[test]
fn fixed_point_helpers() {
    assert_eq!(distance(3, -4), 7);
    assert_eq!(distance(-4, 3), 7);
    assert_eq!(distance(i64::MIN, i64::MAX), u64::MAX);
    assert_eq!(distance(5, 5), 0);
    assert_eq!(div_floor(7, 2), 3);
    assert_eq!(div_floor(-7, 2), -4);
    assert_eq!(div_floor(-8, 2), -4);
    assert_eq!(div_floor(0, 5), 0);
    assert_eq!(div_floor(i128::MIN, 1), i128::MIN);
    assert!(within_limit(LIMIT) && within_limit(-LIMIT) && within_limit(0));
    assert!(!within_limit(LIMIT + 1) && !within_limit(-LIMIT - 1));
}
