use tapestry::grid::{BoundsError, VecGrid};
use tapestry::life::{compute_state, live_neighbor_count, step};
use tapestry::patterns::neighborhood;
use tapestry::Coord;

fn c(x: i32, y: i32) -> Coord {
    Coord::new(x, y)
}

fn grid(rows: &[&str]) -> VecGrid<bool> {
    let cells: Vec<bool> = rows.iter().flat_map(|r| r.chars().map(|ch| ch == '#')).collect();
    VecGrid::from_vec(rows[0].len(), rows.len(), cells).unwrap()
}

fn rows(g: &VecGrid<bool>) -> Vec<String> {
    (0..g.height() as i32)
        .map(|y| {
            (0..g.width() as i32)
                .map(|x| if *g.get(c(x, y)).unwrap() { '#' } else { '.' })
                .collect()
        })
        .collect()
}

#[test]
fn from_vec_needs_width_times_height_cells() {
    assert!(VecGrid::from_vec(2, 3, vec![0u8; 6]).is_some());
    assert!(VecGrid::from_vec(2, 3, vec![0u8; 5]).is_none());
    assert!(VecGrid::from_vec(0, 0, Vec::<u8>::new()).is_some());
    assert!(VecGrid::from_vec(i32::MAX as usize + 1, 0, Vec::<u8>::new()).is_none());
}

#[test]
fn get_reads_row_by_row_and_reports_bounds() {
    let g = VecGrid::from_vec(3, 2, vec![1, 2, 3, 4, 5, 6]).unwrap();
    assert_eq!(g.get(c(0, 0)), Ok(&1));
    assert_eq!(g.get(c(2, 0)), Ok(&3));
    assert_eq!(g.get(c(1, 1)), Ok(&5));
    assert_eq!(g.get(c(3, 0)), Err(BoundsError { coord: c(3, 0) }));
    assert_eq!(g.get(c(0, -1)), Err(BoundsError { coord: c(0, -1) }));
}

#[test]
fn selection_keeps_going_past_out_of_bounds() {
    let g = VecGrid::from_vec(2, 2, vec![10, 20, 30, 40]).unwrap();
    let pattern = vec![c(0, 0), c(5, 5), c(1, 1), c(-1, 0), c(1, 0)];
    let sel = g.selection_iter(&pattern);
    assert_eq!(sel.len(), 5);
    assert_eq!(sel[0], (c(0, 0), Ok(&10)));
    assert_eq!(sel[1], (c(5, 5), Err(BoundsError { coord: c(5, 5) })));
    assert_eq!(sel[2], (c(1, 1), Ok(&40)));
    assert_eq!(sel[3], (c(-1, 0), Err(BoundsError { coord: c(-1, 0) })));
    assert_eq!(sel[4], (c(1, 0), Ok(&20)));
}

#[test]
fn selection_of_a_corner_neighborhood() {
    let g = VecGrid::from_vec(2, 2, vec![1, 2, 3, 4]).unwrap();
    let sel = g.selection_iter(&neighborhood(c(0, 0)));
    let ok: Vec<i32> = sel.iter().filter_map(|(_, r)| r.ok().copied()).collect();
    assert_eq!(ok, vec![3, 4, 2]);
    assert_eq!(sel.iter().filter(|(_, r)| r.is_err()).count(), 5);
}

#[test]
fn lone_center_cell_counts() {
    let g = grid(&["...", ".#.", "..."]);
    assert_eq!(live_neighbor_count(&g, c(1, 1)), 0);
    for &(x, y) in &[(1, 0), (0, 1), (2, 1), (1, 2)] {
        assert_eq!(live_neighbor_count(&g, c(x, y)), 1);
    }
    assert_eq!(live_neighbor_count(&g, c(0, 0)), 1);
    assert_eq!(live_neighbor_count(&g, c(5, 5)), 0);
}

#[test]
fn compute_state_rules() {
    assert!(!compute_state(true, 1));
    assert!(compute_state(true, 2));
    assert!(compute_state(true, 3));
    assert!(!compute_state(true, 4));
    assert!(!compute_state(false, 2));
    assert!(compute_state(false, 3));
}

#[test]
fn lone_cell_dies() {
    let g = step(&grid(&["...", ".#.", "..."]));
    assert_eq!(rows(&g), vec!["...", "...", "..."]);
}

#[test]
fn blinker_reads_the_old_grid_only() {
    let g = grid(&[".....", "..#..", "..#..", "..#..", "....."]);
    let g1 = step(&g);
    assert_eq!(rows(&g1), vec![".....", ".....", ".###.", ".....", "....."]);
    let g2 = step(&g1);
    assert_eq!(rows(&g2), rows(&g));
}

#[test]
fn block_is_still() {
    let g = grid(&["....", ".##.", ".##.", "...."]);
    assert_eq!(rows(&step(&g)), rows(&g));
}
