use rustwarp::wavefront::{
    block_coords, cell_coords, dispatch_size, live_blocks, pass_count, round_up, seed_scores,
};

#[test]
fn test_round_up_exact_and_partial() {
    assert_eq!(round_up(0, 2), 0);
    assert_eq!(round_up(1, 2), 1);
    assert_eq!(round_up(2, 2), 1);
    assert_eq!(round_up(3, 2), 2);
    assert_eq!(round_up(8, 2), 4);
    assert_eq!(round_up(9, 2), 5);
    assert_eq!(round_up(7, 1), 7);
}

#[test]
fn test_pass_count_covers_every_block_diagonal() {
    assert_eq!(pass_count(1, 1), 1);
    assert_eq!(pass_count(2, 5), 6);
    assert_eq!(pass_count(5, 2), 6);
}

#[test]
fn test_live_blocks_grows_then_shrinks() {
    let counts: Vec<u32> = (0..6).map(|p| live_blocks(p, 2, 5)).collect();
    assert_eq!(counts, vec![1, 2, 2, 2, 2, 1]);
    let counts: Vec<u32> = (0..5).map(|p| live_blocks(p, 3, 3)).collect();
    assert_eq!(counts, vec![1, 2, 3, 2, 1]);
}

#[test]
fn test_dispatch_size_is_blocks_times_tile() {
    assert_eq!(dispatch_size(3, 2, 2), 12);
    assert_eq!(dispatch_size(1, 1, 1), 1);
}

#[test]
fn test_block_coords_walk_each_diagonal() {
    // before the midpoint the walk starts at the diagonal's top row
    assert_eq!(block_coords(0, 0, 2, 5), (0, 0));
    assert_eq!(block_coords(1, 0, 2, 5), (1, 0));
    assert_eq!(block_coords(1, 1, 2, 5), (0, 1));
    // past it the walk starts at the last column
    assert_eq!(block_coords(2, 0, 2, 5), (1, 1));
    assert_eq!(block_coords(2, 1, 2, 5), (0, 2));
    assert_eq!(block_coords(5, 0, 2, 5), (1, 4));
}

#[test]
fn test_cell_coords_inside_tile() {
    assert_eq!(cell_coords(0, 0, 0, 2, 2), (0, 0));
    assert_eq!(cell_coords(0, 0, 3, 2, 2), (1, 1));
    assert_eq!(cell_coords(1, 2, 3, 2, 2), (3, 5));
}

#[test]
fn test_seed_scores_boundary_rows() {
    // 3 x 3 grid, gap -1: row 0 and column 0 step by the gap, interior 0.
    let s = seed_scores(2, 2, -1);
    assert_eq!(s, vec![0, -1, -2, -1, 0, 0, -2, 0, 0]);
    let s = seed_scores(0, 3, -2);
    assert_eq!(s, vec![0, -2, -4, -6]);
}
