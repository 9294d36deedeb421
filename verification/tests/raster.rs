use prime_walk::raster::{Raster, BLACK, CLEAR_DEPTH};

#[test]
fn test_new_raster_is_black() {
    let raster = Raster::new(4, 3);
    assert_eq!(raster.width(), 4);
    assert_eq!(raster.height(), 3);
    assert_eq!(raster.colors().len(), 12);
    for x in 0..4 {
        for y in 0..3 {
            assert_eq!(raster.color_at(x, y), BLACK);
        }
    }
}

#[test]
fn test_horizontal_line_pixels() {
    let mut raster = Raster::new(8, 8);
    raster.draw_line((1, 3), (5, 3), (10, 20, 30), 7);
    for x in 1..=5 {
        assert_eq!(raster.color_at(x, 3), (10, 20, 30));
    }
    assert_eq!(raster.color_at(0, 3), BLACK);
    assert_eq!(raster.color_at(6, 3), BLACK);
    assert_eq!(raster.color_at(3, 2), BLACK);
}

#[test]
fn test_diagonal_line_pixels() {
    let mut raster = Raster::new(8, 8);
    raster.draw_line((0, 0), (3, 3), (9, 9, 9), 7);
    for k in 0..=3 {
        assert_eq!(raster.color_at(k, k), (9, 9, 9));
    }
    assert_eq!(raster.color_at(0, 1), BLACK);
    assert_eq!(raster.color_at(1, 0), BLACK);
}

#[test]
fn test_single_pixel_line() {
    let mut raster = Raster::new(8, 8);
    raster.draw_line((2, 2), (2, 2), (1, 2, 3), 7);
    assert_eq!(raster.color_at(2, 2), (1, 2, 3));
    assert_eq!(raster.color_at(2, 3), BLACK);
}

#[test]
fn test_depth_nearer_wins_first() {
    let mut raster = Raster::new(8, 8);
    raster.draw_line((2, 2), (2, 2), (1, 0, 0), 5);
    raster.draw_line((2, 2), (2, 2), (0, 1, 0), 9);
    assert_eq!(raster.color_at(2, 2), (1, 0, 0));
}

#[test]
fn test_depth_nearer_wins_second() {
    let mut raster = Raster::new(8, 8);
    raster.draw_line((2, 2), (2, 2), (0, 1, 0), 9);
    raster.draw_line((2, 2), (2, 2), (1, 0, 0), 5);
    assert_eq!(raster.color_at(2, 2), (1, 0, 0));
}

#[test]
fn test_clear_depth_blocks_nothing_nearer() {
    let mut raster = Raster::new(4, 4);
    raster.draw_line((0, 0), (0, 0), (7, 7, 7), CLEAR_DEPTH);
    assert_eq!(raster.color_at(0, 0), BLACK);
    raster.draw_line((0, 0), (0, 0), (7, 7, 7), CLEAR_DEPTH - 1);
    assert_eq!(raster.color_at(0, 0), (7, 7, 7));
}

#[test]
fn test_clear_resets_buffers() {
    let mut raster = Raster::new(4, 4);
    raster.draw_line((0, 0), (3, 3), (7, 7, 7), 1);
    raster.clear();
    for x in 0..4 {
        for y in 0..4 {
            assert_eq!(raster.color_at(x, y), BLACK);
        }
    }
    raster.draw_line((1, 1), (1, 1), (5, 5, 5), 2);
    assert_eq!(raster.color_at(1, 1), (5, 5, 5));
}

#[test]
fn test_depth_key_order_matches_distance_order() {
    let near = 2.0_f64.to_bits();
    let far = 3.5_f64.to_bits();
    assert!(near < far);
    let mut raster = Raster::new(4, 4);
    raster.draw_line((1, 1), (1, 1), (0, 0, 1), far);
    raster.draw_line((1, 1), (1, 1), (0, 1, 0), near);
    assert_eq!(raster.color_at(1, 1), (0, 1, 0));
}
