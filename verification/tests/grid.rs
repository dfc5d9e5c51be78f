use raytracer::chunk::{chunk_grid, Chunk};

#[test]
fn chunk_new_keeps_fields() {
    let c = Chunk::new(50, 40, 100, 150);
    assert_eq!(c.width, 50);
    assert_eq!(c.height, 40);
    assert_eq!(c.offset_x, 100);
    assert_eq!(c.offset_y, 150);
}

#[test]
fn grid_divides_evenly() {
    let grid = chunk_grid(200, 200, 50, 50);
    assert_eq!(grid.len(), 16);
    for (k, c) in grid.iter().enumerate() {
        assert_eq!(c.width, 50);
        assert_eq!(c.height, 50);
        assert_eq!(c.offset_x, (k % 4) * 50);
        assert_eq!(c.offset_y, (k / 4) * 50);
    }
}

#[test]
fn grid_clips_right_and_bottom_edges() {
    let grid = chunk_grid(190, 130, 50, 60);
    assert_eq!(grid.len(), 4 * 3);
    // Rightmost column is clipped to 40 pixels, bottom row to 10.
    for (k, c) in grid.iter().enumerate() {
        let cx = k % 4;
        let cy = k / 4;
        assert_eq!(c.offset_x, cx * 50);
        assert_eq!(c.offset_y, cy * 60);
        assert_eq!(c.width, if cx == 3 { 40 } else { 50 });
        assert_eq!(c.height, if cy == 2 { 10 } else { 60 });
    }
}

#[test]
fn grid_of_empty_image_is_empty() {
    assert_eq!(chunk_grid(0, 100, 8, 8).len(), 0);
    assert_eq!(chunk_grid(100, 0, 8, 8).len(), 0);
}

#[test]
fn grid_single_oversized_chunk() {
    let grid = chunk_grid(30, 20, 64, 64);
    assert_eq!(grid.len(), 1);
    assert_eq!(grid[0].offset_x, 0);
    assert_eq!(grid[0].offset_y, 0);
    assert_eq!(grid[0].width, 30);
    assert_eq!(grid[0].height, 20);
}

#[test]
fn grid_covers_each_pixel_exactly_once() {
    let (w, h) = (37usize, 23usize);
    let grid = chunk_grid(w, h, 7, 5);
    let mut counts = vec![0u32; w * h];
    for c in &grid {
        for y in c.offset_y..c.offset_y + c.height {
            for x in c.offset_x..c.offset_x + c.width {
                assert!(x < w && y < h);
                counts[y * w + x] += 1;
            }
        }
    }
    assert!(counts.iter().all(|&n| n == 1));
}
