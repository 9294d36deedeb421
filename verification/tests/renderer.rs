use prime_walk::raster::BLACK;
use prime_walk::render::{PointEvent, PointOutcome, Renderer, VisiblePixel};

fn visible(x: usize, y: usize, depth: u64, color: (u8, u8, u8)) -> PointEvent {
    PointEvent { color, outcome: PointOutcome::Visible(VisiblePixel { x, y, depth }) }
}

fn hidden(reconnect: Option<(usize, usize, u64)>, color: (u8, u8, u8)) -> PointEvent {
    let reconnect = reconnect.map(|(x, y, depth)| VisiblePixel { x, y, depth });
    PointEvent { color, outcome: PointOutcome::Hidden(reconnect) }
}

fn color_at(renderer: &Renderer, width: usize, x: usize, y: usize) -> (u8, u8, u8) {
    renderer.colors()[y * width + x]
}

#[test]
fn test_two_points_draw_one_segment() {
    let mut renderer = Renderer::new(10, 10);
    let events = vec![visible(2, 4, 7, (1, 1, 1)), visible(6, 4, 7, (2, 2, 2))];
    renderer.map_to_pixels2d(&events);
    // The segment carries the second point's color; the first point alone
    // draws nothing.
    for x in 2..=6 {
        assert_eq!(color_at(&renderer, 10, x, 4), (2, 2, 2));
    }
    assert_eq!(color_at(&renderer, 10, 1, 4), BLACK);
    assert_eq!(color_at(&renderer, 10, 7, 4), BLACK);
}

#[test]
fn test_empty_path_leaves_raster_black() {
    let mut renderer = Renderer::new(6, 6);
    renderer.map_to_pixels2d(&Vec::new());
    for p in renderer.colors() {
        assert_eq!(*p, BLACK);
    }
}

#[test]
fn test_render_clears_previous_frame() {
    let mut renderer = Renderer::new(6, 6);
    let first = vec![visible(0, 0, 7, (1, 1, 1)), visible(5, 0, 7, (1, 1, 1))];
    renderer.map_to_pixels2d(&first);
    assert_eq!(color_at(&renderer, 6, 3, 0), (1, 1, 1));
    let second = vec![visible(0, 5, 7, (2, 2, 2)), visible(5, 5, 7, (2, 2, 2))];
    renderer.map_to_pixels2d(&second);
    assert_eq!(color_at(&renderer, 6, 3, 0), BLACK);
    assert_eq!(color_at(&renderer, 6, 3, 5), (2, 2, 2));
}

#[test]
fn test_single_point_draws_nothing() {
    let mut renderer = Renderer::new(10, 10);
    let events = vec![visible(5, 5, 7, (9, 9, 9))];
    renderer.map_to_pixels2d(&events);
    for p in renderer.colors() {
        assert_eq!(*p, BLACK);
    }
}

#[test]
fn test_depth_order_independence() {
    // Two segments cross at (5, 5) with different depth keys; whichever is
    // drawn first, the nearer color holds the pixel.
    let horizontal = [visible(0, 5, 10, (200, 0, 0)), visible(9, 5, 10, (200, 0, 0))];
    let vertical = [visible(5, 0, 20, (0, 0, 200)), visible(5, 9, 20, (0, 0, 200))];
    let reset = hidden(None, (0, 0, 0));

    let mut first = Renderer::new(10, 10);
    let mut events: Vec<PointEvent> = Vec::new();
    events.extend(horizontal.iter().cloned());
    events.push(reset);
    events.extend(vertical.iter().cloned());
    first.map_to_pixels2d(&events);

    let mut second = Renderer::new(10, 10);
    let mut swapped: Vec<PointEvent> = Vec::new();
    swapped.extend(vertical.iter().cloned());
    swapped.push(hidden(None, (0, 0, 0)));
    swapped.extend(horizontal.iter().cloned());
    second.map_to_pixels2d(&swapped);

    assert_eq!(color_at(&first, 10, 5, 5), (200, 0, 0));
    assert_eq!(color_at(&second, 10, 5, 5), (200, 0, 0));
    assert_eq!(color_at(&first, 10, 4, 5), (200, 0, 0));
    assert_eq!(color_at(&first, 10, 5, 4), (0, 0, 200));
    assert_eq!(color_at(&second, 10, 4, 5), (200, 0, 0));
    assert_eq!(color_at(&second, 10, 5, 4), (0, 0, 200));
}

#[test]
fn test_rendering_twice_is_identical() {
    let events = vec![
        visible(1, 1, 3, (10, 0, 0)),
        visible(8, 2, 5, (0, 10, 0)),
        hidden(Some((4, 7, 2)), (0, 0, 10)),
        visible(3, 3, 1, (20, 20, 20)),
        visible(3, 9, 1, (30, 30, 30)),
    ];
    let mut renderer = Renderer::new(12, 12);
    renderer.map_to_pixels2d(&events);
    let first_frame = renderer.colors().clone();
    renderer.map_to_pixels2d(&events);
    assert_eq!(renderer.colors(), &first_frame);
}

#[test]
fn test_hidden_point_reconnects_through_boundary() {
    let mut renderer = Renderer::new(10, 10);
    let events = vec![
        visible(1, 1, 7, (1, 1, 1)),
        hidden(Some((4, 1, 7)), (5, 5, 5)),
        visible(8, 8, 7, (6, 6, 6)),
    ];
    renderer.map_to_pixels2d(&events);
    // The reconnection segment runs from the last projected point to the
    // boundary cut, in the hidden point's color.
    for x in 1..=4 {
        assert_eq!(color_at(&renderer, 10, x, 1), (5, 5, 5));
    }
    // The hidden point cleared the previous-point state, so the next
    // visible point starts a fresh run and draws nothing.
    assert_eq!(color_at(&renderer, 10, 8, 8), BLACK);
    assert_eq!(color_at(&renderer, 10, 6, 5), BLACK);
}

#[test]
fn test_hidden_point_without_cut_draws_nothing() {
    let mut renderer = Renderer::new(10, 10);
    let events = vec![visible(1, 1, 7, (1, 1, 1)), hidden(None, (5, 5, 5))];
    renderer.map_to_pixels2d(&events);
    for p in renderer.colors() {
        assert_eq!(*p, BLACK);
    }
}

#[test]
fn test_short_horizontal_run_near_center() {
    // A two-point path whose projections land on the center row produces a
    // short horizontal run of the second point's color between them.
    let mut renderer = Renderer::new(800, 800);
    let near = 100.0_f64.to_bits();
    let events = vec![visible(400, 400, near, (255, 0, 0)), visible(440, 400, near, (0, 0, 255))];
    renderer.map_to_pixels2d(&events);
    for x in 400..=440 {
        assert_eq!(color_at(&renderer, 800, x, 400), (0, 0, 255));
    }
    assert_eq!(color_at(&renderer, 800, 399, 400), BLACK);
    assert_eq!(color_at(&renderer, 800, 441, 400), BLACK);
    assert_eq!(color_at(&renderer, 800, 420, 401), BLACK);
}
