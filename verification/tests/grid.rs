use slime::spatial_grid::{SpatialGrid, TileBox};
use slime::vector::Vector2D;

const X_HASH: usize = 6287364878;
const Y_HASH: usize = 2731859790;

fn tile(n: f32, tile_size: f32) -> usize {
    (n / tile_size).floor() as usize
}

fn around(x: f32, y: f32, r: f32, tile_size: f32) -> TileBox {
    TileBox {
        lo: Vector2D::new(tile(x - r, tile_size), tile(y - r, tile_size)),
        hi: Vector2D::new(tile(x + r, tile_size), tile(y + r, tile_size)),
    }
}

fn tiles(x0: usize, y0: usize, x1: usize, y1: usize) -> TileBox {
    TileBox { lo: Vector2D::new(x0, y0), hi: Vector2D::new(x1, y1) }
}

fn grid(buckets: usize) -> SpatialGrid {
    SpatialGrid::new(buckets, Vector2D::new(X_HASH, Y_HASH))
}

#[test]
fn pushed_id_is_found_where_it_was_pushed_and_not_far_away() {
    let mut grid = grid(800 * 600);
    let here = around(100.0, 100.0, 5.0, 10.0);
    assert_eq!((here.lo.x, here.lo.y, here.hi.x, here.hi.y), (9, 9, 10, 10));
    grid.push(7, here);
    assert_eq!(grid.get(here), vec![7]);
    let far = around(500.0, 500.0, 5.0, 10.0);
    assert!(!grid.get(far).contains(&7));
}

#[test]
fn new_grid_holds_nothing() {
    let grid = grid(64);
    assert_eq!(grid.current_stamp(), 0);
    assert_eq!(grid.get(tiles(0, 0, 8, 8)), Vec::<usize>::new());
}

#[test]
fn clear_then_query_finds_nothing() {
    let mut grid = grid(64);
    grid.push(1, tiles(0, 0, 4, 4));
    grid.push(2, tiles(2, 2, 6, 6));
    assert!(!grid.get(tiles(0, 0, 8, 8)).is_empty());
    grid.clear();
    assert_eq!(grid.current_stamp(), 1);
    assert_eq!(grid.get(tiles(0, 0, 8, 8)), Vec::<usize>::new());
}

#[test]
fn bucket_written_after_clear_forgets_what_it_held() {
    let mut grid = grid(64);
    grid.push(1, tiles(3, 3, 4, 4));
    grid.clear();
    grid.push(2, tiles(3, 3, 4, 4));
    assert_eq!(grid.get(tiles(3, 3, 4, 4)), vec![2]);
}

#[test]
fn id_pushed_over_many_tiles_is_found_once() {
    let mut grid = grid(1024);
    grid.push(5, tiles(0, 0, 3, 3));
    assert_eq!(grid.get(tiles(0, 0, 3, 3)), vec![5]);
    assert_eq!(grid.get(tiles(2, 2, 5, 5)), vec![5]);
}

#[test]
fn ids_come_in_the_order_in_which_the_tiles_bring_them() {
    let mut grid = grid(4096);
    grid.push(3, tiles(1, 0, 2, 1));
    grid.push(1, tiles(0, 0, 1, 1));
    grid.push(2, tiles(0, 1, 1, 2));
    grid.push(9, tiles(0, 0, 1, 1));
    assert_eq!(grid.get(tiles(0, 0, 2, 2)), vec![1, 9, 3, 2]);
}

#[test]
fn box_without_tiles_inserts_and_finds_nothing() {
    let mut grid = grid(64);
    grid.push(1, tiles(3, 3, 3, 9));
    grid.push(1, tiles(3, 3, 9, 3));
    grid.push(1, tiles(5, 5, 2, 2));
    assert_eq!(grid.get(tiles(0, 0, 10, 10)), Vec::<usize>::new());
    grid.push(2, tiles(0, 0, 10, 10));
    assert_eq!(grid.get(tiles(4, 4, 4, 8)), Vec::<usize>::new());
    assert_eq!(grid.get(tiles(8, 8, 4, 4)), Vec::<usize>::new());
}

#[test]
fn overlapping_boxes_are_found_whatever_the_hash() {
    for buckets in [1usize, 2, 3, 7, 64, 1000] {
        let mut grid = SpatialGrid::new(buckets, Vector2D::new(X_HASH, Y_HASH));
        grid.push(11, tiles(2, 2, 5, 5));
        grid.push(12, tiles(4, 4, 9, 9));
        let found = grid.get(tiles(4, 4, 5, 5));
        assert!(found.contains(&11));
        assert!(found.contains(&12));
    }
}

#[test]
fn one_bucket_holds_every_id() {
    let mut grid = grid(1);
    grid.push(1, tiles(0, 0, 1, 1));
    grid.push(2, tiles(100, 100, 101, 101));
    assert_eq!(grid.get(tiles(50, 50, 51, 51)), vec![1, 2]);
}

#[test]
fn tiles_fall_into_buckets_by_the_hash() {
    let mut grid = SpatialGrid::new(10, Vector2D::new(3, 5));
    // (2 * 3) ^ (4 * 5) = 6 ^ 20 = 18, and 18 % 10 = 8
    grid.push(1, tiles(2, 4, 3, 5));
    // (0 * 3) ^ (0 * 5) = 0
    assert_eq!(grid.get(tiles(0, 0, 1, 1)), Vec::<usize>::new());
    // (6 * 3) ^ (0 * 5) = 18: the same bucket as (2, 4)
    assert_eq!(grid.get(tiles(6, 0, 7, 1)), vec![1]);
    // (1 * 3) ^ (1 * 5) = 6
    assert_eq!(grid.get(tiles(1, 1, 2, 2)), Vec::<usize>::new());
}

#[test]
fn hash_multiplies_modulo_the_word_size() {
    let mut grid = SpatialGrid::new(1000, Vector2D::new(usize::MAX, 1));
    // 2 * (2^64 - 1) wraps to 2^64 - 2; with y = 0 the hash is that number
    grid.push(1, tiles(2, 0, 3, 1));
    let bucket = (usize::MAX - 1) % 1000;
    // the tile (0, bucket) hashes to `bucket` itself
    assert_eq!(grid.get(tiles(0, bucket, 1, bucket + 1)), vec![1]);
    assert_eq!(grid.get(tiles(0, bucket + 1, 1, bucket + 2)), Vec::<usize>::new());
}

#[test]
fn stamp_counts_the_clears() {
    let mut grid = grid(8);
    for n in 0..5 {
        assert_eq!(grid.current_stamp(), n);
        grid.clear();
    }
    assert_eq!(grid.current_stamp(), 5);
}
