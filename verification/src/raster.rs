//! Reusable color and depth buffers with a depth-tested Bresenham tracer.
//!
//! The raster holds one color and one depth value per pixel. Depths are
//! order-preserving keys for squared camera distances: the host encodes each
//! non-negative squared distance so that key order matches distance order,
//! and the tracer writes a pixel only when the new key is strictly smaller
//! than the stored one. A whole traced segment carries one constant depth
//! key; depth is never interpolated along the line.

use vstd::prelude::*;

verus! {

/// The background color every frame starts from.
pub const BLACK: (u8, u8, u8) = (0u8, 0u8, 0u8);

/// The depth key a cleared pixel holds: the key of the largest finite
/// squared distance, so any strictly smaller distance may draw over it.
pub const CLEAR_DEPTH: u64 = 0x7FEF_FFFF_FFFF_FFFF;

/// Largest width or height a raster accepts; keeps every index and every
/// intermediate of the line tracer's arithmetic within the machine types.
pub const MAX_SIDE: usize = 32768;

/// Writing one pixel: inside the raster and strictly nearer than what the
/// depth buffer holds, both buffers take the new value; otherwise neither
/// changes. The first component is the color buffer, the second the depths.
pub open spec fn plotted(
    colors: Seq<(u8, u8, u8)>,
    depths: Seq<u64>,
    width: int,
    height: int,
    x: int,
    y: int,
    color: (u8, u8, u8),
    depth: u64,
) -> (Seq<(u8, u8, u8)>, Seq<u64>) {
    let i = y * width + x;
    if 0 <= x < width && 0 <= y < height && depth < depths[i] {
        (colors.update(i, color), depths.update(i, depth))
    } else {
        (colors, depths)
    }
}

/// Writing a run of pixels in order, all with one color and one depth key.
pub open spec fn plotted_all(
    colors: Seq<(u8, u8, u8)>,
    depths: Seq<u64>,
    width: int,
    height: int,
    points: Seq<(int, int)>,
    color: (u8, u8, u8),
    depth: u64,
) -> (Seq<(u8, u8, u8)>, Seq<u64>)
    decreases points.len(),
{
    if points.len() == 0 {
        (colors, depths)
    } else {
        let head = plotted(colors, depths, width, height, points[0].0, points[0].1, color, depth);
        plotted_all(head.0, head.1, width, height, points.drop_first(), color, depth)
    }
}

/// One step of the line tracer: from `(x, y)` with error term `err`, where
/// the doubled error decides which of the two axes advance.
pub open spec fn bres_step(x: int, y: int, err: int, sx: int, sy: int, dx: int, dy: int) -> (
    int,
    int,
    int,
) {
    let e2 = 2 * err;
    let x2 = if e2 > -dy {
        x + sx
    } else {
        x
    };
    let err1 = if e2 > -dy {
        err - dy
    } else {
        err
    };
    let y2 = if e2 < dx {
        y + sy
    } else {
        y
    };
    let err2 = if e2 < dx {
        err1 + dx
    } else {
        err1
    };
    (x2, y2, err2)
}

/// The pixels the tracer visits from `(x, y)` until it reaches `(x1, y1)`,
/// endpoints included. `fuel` bounds the number of steps the recursion may
/// take; a run that starts from a consistent error term never exhausts it.
pub open spec fn bres_points(
    x: int,
    y: int,
    err: int,
    x1: int,
    y1: int,
    sx: int,
    sy: int,
    dx: int,
    dy: int,
    fuel: nat,
) -> Seq<(int, int)>
    decreases fuel,
{
    if x == x1 && y == y1 {
        seq![(x, y)]
    } else if fuel == 0 {
        seq![(x, y)]
    } else {
        let next = bres_step(x, y, err, sx, sy, dx, dy);
        seq![(x, y)] + bres_points(next.0, next.1, next.2, x1, y1, sx, sy, dx, dy, (fuel - 1) as nat)
    }
}

/// Horizontal span of a segment: how many unit steps in x it takes.
pub open spec fn span(a: int, b: int) -> int {
    if b >= a {
        b - a
    } else {
        a - b
    }
}

/// Direction of a unit step from `a` toward `b`, as the tracer picks it.
pub open spec fn step_sign(a: int, b: int) -> int {
    if a < b {
        1
    } else {
        -1
    }
}

/// The full pixel run of the segment from `(x0, y0)` to `(x1, y1)`.
pub open spec fn line_points(x0: int, y0: int, x1: int, y1: int) -> Seq<(int, int)> {
    let dx = span(x0, x1);
    let dy = span(y0, y1);
    bres_points(
        x0,
        y0,
        dx - dy,
        x1,
        y1,
        step_sign(x0, x1),
        step_sign(y0, y1),
        dx,
        dy,
        (dx + dy) as nat,
    )
}

/// The tracer's error term is determined by how far it has come: after `i`
/// steps in x and `j` steps in y it equals `dx - dy - dy * i + dx * j`, and
/// neither axis has gone past its endpoint.
pub open spec fn bres_inv(x0: int, y0: int, x1: int, y1: int, x: int, y: int, err: int) -> bool {
    let dx = span(x0, x1);
    let dy = span(y0, y1);
    let i = step_sign(x0, x1) * (x - x0);
    let j = step_sign(y0, y1) * (y - y0);
    &&& 0 <= i <= dx
    &&& 0 <= j <= dy
    &&& err == dx - dy - dy * i + dx * j
}

/// Pixels left before the tracer reaches the endpoint.
pub open spec fn bres_measure(x0: int, y0: int, x1: int, y1: int, x: int, y: int) -> int {
    let dx = span(x0, x1);
    let dy = span(y0, y1);
    let i = step_sign(x0, x1) * (x - x0);
    let j = step_sign(y0, y1) * (y - y0);
    (dx - i) + (dy - j)
}

/// From a consistent state that has not yet reached the endpoint, one tracer
/// step stays within the segment's bounds, keeps the error term consistent,
/// and comes strictly closer to the endpoint.
pub proof fn lemma_bres_step(x0: int, y0: int, x1: int, y1: int, x: int, y: int, err: int)
    requires
        bres_inv(x0, y0, x1, y1, x, y, err),
        !(x == x1 && y == y1),
    ensures
        bres_inv(
            x0,
            y0,
            x1,
            y1,
            bres_step(x, y, err, step_sign(x0, x1), step_sign(y0, y1), span(x0, x1), span(y0, y1)).0,
            bres_step(x, y, err, step_sign(x0, x1), step_sign(y0, y1), span(x0, x1), span(y0, y1)).1,
            bres_step(x, y, err, step_sign(x0, x1), step_sign(y0, y1), span(x0, x1), span(y0, y1)).2,
        ),
        bres_measure(
            x0,
            y0,
            x1,
            y1,
            bres_step(x, y, err, step_sign(x0, x1), step_sign(y0, y1), span(x0, x1), span(y0, y1)).0,
            bres_step(x, y, err, step_sign(x0, x1), step_sign(y0, y1), span(x0, x1), span(y0, y1)).1,
        ) < bres_measure(x0, y0, x1, y1, x, y),
        bres_measure(x0, y0, x1, y1, x, y) >= 1,
{
    let dx = span(x0, x1);
    let dy = span(y0, y1);
    let sx = step_sign(x0, x1);
    let sy = step_sign(y0, y1);
    let i = sx * (x - x0);
    let j = sy * (y - y0);
    if x0 < x1 {
        assert(sx == 1 && dx == x1 - x0);
    } else {
        assert(sx == -1 && dx == x0 - x1);
    }
    if y0 < y1 {
        assert(sy == 1 && dy == y1 - y0);
    } else {
        assert(sy == -1 && dy == y0 - y1);
    }
    assert(sx * sx == 1 && sy * sy == 1);
    assert((x == x1 <==> i == dx) && sx * ((x + sx) - x0) == i + 1) by (nonlinear_arith)
        requires
            sx == 1 || sx == -1,
            i == sx * (x - x0),
            x1 == x0 + sx * dx,
    ;
    assert((y == y1 <==> j == dy) && sy * ((y + sy) - y0) == j + 1) by (nonlinear_arith)
        requires
            sy == 1 || sy == -1,
            j == sy * (y - y0),
            y1 == y0 + sy * dy,
    ;
    assert(i == dx && j < dy ==> 2 * err <= -dy) by (nonlinear_arith)
        requires
            err == dx - dy - dy * i + dx * j,
            0 <= j,
            0 <= dy,
            0 <= dx,
    ;
    assert(j == dy && i < dx ==> 2 * err >= dx) by (nonlinear_arith)
        requires
            err == dx - dy - dy * i + dx * j,
            0 <= i,
            0 <= dx,
            0 <= dy,
    ;
    assert(dy * (i + 1) == dy * i + dy && dx * (j + 1) == dx * j + dx) by (nonlinear_arith);
    let e2 = 2 * err;
    if !(e2 > -dy) && !(e2 < dx) {
        assert(dx <= e2 <= -dy);
        assert(dx == 0 && dy == 0);
        assert(i == dx && j == dy);
        assert(false);
    }
}

/// From a consistent state, the tracer's pixel run does not depend on the
/// fuel bound, once the fuel covers the pixels still to come.
pub proof fn lemma_bres_fuel(
    x0: int,
    y0: int,
    x1: int,
    y1: int,
    x: int,
    y: int,
    err: int,
    f1: nat,
    f2: nat,
)
    requires
        bres_inv(x0, y0, x1, y1, x, y, err),
        f1 >= bres_measure(x0, y0, x1, y1, x, y),
        f2 >= bres_measure(x0, y0, x1, y1, x, y),
    ensures
        bres_points(
            x,
            y,
            err,
            x1,
            y1,
            step_sign(x0, x1),
            step_sign(y0, y1),
            span(x0, x1),
            span(y0, y1),
            f1,
        ) == bres_points(
            x,
            y,
            err,
            x1,
            y1,
            step_sign(x0, x1),
            step_sign(y0, y1),
            span(x0, x1),
            span(y0, y1),
            f2,
        ),
    decreases f1,
{
    if x == x1 && y == y1 {
    } else {
        lemma_bres_step(x0, y0, x1, y1, x, y, err);
        let n = bres_step(x, y, err, step_sign(x0, x1), step_sign(y0, y1), span(x0, x1), span(
            y0,
            y1,
        ));
        lemma_bres_fuel(x0, y0, x1, y1, n.0, n.1, n.2, (f1 - 1) as nat, (f2 - 1) as nat);
    }
}

/// From a consistent state with enough fuel, the tracer's run is nonempty,
/// starts at the current pixel and ends at the endpoint.
proof fn lemma_bres_run_ends(
    x0: int,
    y0: int,
    x1: int,
    y1: int,
    x: int,
    y: int,
    err: int,
    fuel: nat,
)
    requires
        bres_inv(x0, y0, x1, y1, x, y, err),
        fuel >= bres_measure(x0, y0, x1, y1, x, y),
    ensures
        bres_points(x, y, err, x1, y1, step_sign(x0, x1), step_sign(y0, y1), span(x0, x1), span(y0, y1), fuel).len() >= 1,
        bres_points(x, y, err, x1, y1, step_sign(x0, x1), step_sign(y0, y1), span(x0, x1), span(y0, y1), fuel)[0] == (x, y),
        bres_points(x, y, err, x1, y1, step_sign(x0, x1), step_sign(y0, y1), span(x0, x1), span(y0, y1), fuel).last() == (x1, y1),
    decreases fuel,
{
    if x == x1 && y == y1 {
    } else {
        lemma_bres_step(x0, y0, x1, y1, x, y, err);
        let n = bres_step(x, y, err, step_sign(x0, x1), step_sign(y0, y1), span(x0, x1), span(
            y0,
            y1,
        ));
        lemma_bres_run_ends(x0, y0, x1, y1, n.0, n.1, n.2, (fuel - 1) as nat);
        let rest = bres_points(n.0, n.1, n.2, x1, y1, step_sign(x0, x1), step_sign(y0, y1), span(
            x0,
            x1,
        ), span(y0, y1), (fuel - 1) as nat);
        assert((seq![(x, y)] + rest).last() == rest.last());
    }
}

/// A traced segment visits at least one pixel, begins at its first endpoint
/// and finishes at its second.
pub proof fn lemma_line_points_endpoints(x0: int, y0: int, x1: int, y1: int)
    ensures
        line_points(x0, y0, x1, y1).len() >= 1,
        line_points(x0, y0, x1, y1)[0] == (x0, y0),
        line_points(x0, y0, x1, y1).last() == (x1, y1),
{
    let dx = span(x0, x1);
    let dy = span(y0, y1);
    assert(dy * 0 == 0 && dx * 0 == 0) by (nonlinear_arith);
    assert(bres_inv(x0, y0, x1, y1, x0, y0, dx - dy));
    lemma_bres_run_ends(x0, y0, x1, y1, x0, y0, dx - dy, (dx + dy) as nat);
}

/// Every state the tracer reaches lies inside the box its endpoints span.
pub proof fn lemma_bres_box(x0: int, y0: int, x1: int, y1: int, x: int, y: int, err: int)
    requires
        bres_inv(x0, y0, x1, y1, x, y, err),
    ensures
        x0 <= x <= x1 || x1 <= x <= x0,
        y0 <= y <= y1 || y1 <= y <= y0,
{
    let dx = span(x0, x1);
    let dy = span(y0, y1);
    let sx = step_sign(x0, x1);
    let sy = step_sign(y0, y1);
    if x0 < x1 {
        assert(sx == 1 && dx == x1 - x0);
    } else {
        assert(sx == -1 && dx == x0 - x1);
    }
    if y0 < y1 {
        assert(sy == 1 && dy == y1 - y0);
    } else {
        assert(sy == -1 && dy == y0 - y1);
    }
    assert(x0 <= x <= x1 || x1 <= x <= x0) by (nonlinear_arith)
        requires
            sx == 1 || sx == -1,
            0 <= sx * (x - x0) <= dx,
            x1 == x0 + sx * dx,
    ;
    assert(y0 <= y <= y1 || y1 <= y <= y0) by (nonlinear_arith)
        requires
            sy == 1 || sy == -1,
            0 <= sy * (y - y0) <= dy,
            y1 == y0 + sy * dy,
    ;
}

/// On short segments the error term stays far inside the machine range.
pub proof fn lemma_bres_err_bounds(x0: int, y0: int, x1: int, y1: int, x: int, y: int, err: int)
    requires
        bres_inv(x0, y0, x1, y1, x, y, err),
        span(x0, x1) <= MAX_SIDE,
        span(y0, y1) <= MAX_SIDE,
    ensures
        -0x4100_0000 <= err <= 0x4100_0000,
{
    let dx = span(x0, x1);
    let dy = span(y0, y1);
    let i = step_sign(x0, x1) * (x - x0);
    let j = step_sign(y0, y1) * (y - y0);
    assert(-0x4100_0000 <= err <= 0x4100_0000) by (nonlinear_arith)
        requires
            err == dx - dy - dy * i + dx * j,
            0 <= i <= dx <= 0x8000,
            0 <= j <= dy <= 0x8000,
    ;
}

/// A raster of `width * height` pixels: a color and a depth key for each.
pub struct Raster {
    /// Width in pixels, at most `MAX_SIDE`.
    pub width: usize,
    /// Height in pixels, at most `MAX_SIDE`.
    pub height: usize,
    /// Row-major colors; pixel `(x, y)` lives at `y * width + x`.
    pub colors: Vec<(u8, u8, u8)>,
    /// Row-major depth keys, same layout as `colors`.
    pub depths: Vec<u64>,
}

/// The colors a cleared raster holds: all black.
pub open spec fn cleared_colors(width: int, height: int) -> Seq<(u8, u8, u8)> {
    Seq::new((width * height) as nat, |i: int| BLACK)
}

/// The depth keys a cleared raster holds: all at the clearing key.
pub open spec fn cleared_depths(width: int, height: int) -> Seq<u64> {
    Seq::new((width * height) as nat, |i: int| CLEAR_DEPTH)
}

impl Raster {
    /// Both buffers cover exactly the pixel grid and the sides are small
    /// enough for the tracer's index arithmetic.
    pub open spec fn well_formed(&self) -> bool {
        &&& self.width <= MAX_SIDE
        &&& self.height <= MAX_SIDE
        &&& self.colors@.len() == self.width * self.height
        &&& self.depths@.len() == self.width * self.height
    }

    /// A fresh raster, cleared to black at the clearing depth.
    pub fn new(width: usize, height: usize) -> (raster: Raster)
        requires
            width <= MAX_SIDE,
            height <= MAX_SIDE,
        ensures
            raster.well_formed(),
            raster.width == width,
            raster.height == height,
            raster.colors@ == cleared_colors(width as int, height as int),
            raster.depths@ == cleared_depths(width as int, height as int),
    {
        proof {
            lemma_grid_size_fits(width as int, height as int);
        }
        let size = width * height;
        let mut colors: Vec<(u8, u8, u8)> = Vec::new();
        let mut depths: Vec<u64> = Vec::new();
        let mut k: usize = 0;
        while k < size
            invariant
                k <= size,
                colors@.len() == k,
                depths@.len() == k,
                forall|i: int| 0 <= i < k ==> colors@[i] == BLACK,
                forall|i: int| 0 <= i < k ==> depths@[i] == CLEAR_DEPTH,
            decreases size - k,
        {
            colors.push(BLACK);
            depths.push(CLEAR_DEPTH);
            k = k + 1;
        }
        proof {
            assert(colors@ =~= cleared_colors(width as int, height as int));
            assert(depths@ =~= cleared_depths(width as int, height as int));
        }
        Raster { width, height, colors, depths }
    }

    /// Puts every pixel back to black at the clearing depth, keeping the
    /// buffers' storage for reuse.
    pub fn clear(&mut self)
        requires
            old(self).well_formed(),
        ensures
            final(self).well_formed(),
            final(self).width == old(self).width,
            final(self).height == old(self).height,
            final(self).colors@ == cleared_colors(old(self).width as int, old(self).height as int),
            final(self).depths@ == cleared_depths(old(self).width as int, old(self).height as int),
    {
        proof {
            lemma_grid_size_fits(self.width as int, self.height as int);
        }
        let size = self.width * self.height;
        let mut k: usize = 0;
        while k < size
            invariant
                k <= size,
                self.width == old(self).width,
                self.height == old(self).height,
                size == self.width * self.height,
                self.colors@.len() == size,
                self.depths@.len() == size,
                forall|i: int| 0 <= i < k ==> self.colors@[i] == BLACK,
                forall|i: int| 0 <= i < k ==> self.depths@[i] == CLEAR_DEPTH,
            decreases size - k,
        {
            self.colors[k] = BLACK;
            self.depths[k] = CLEAR_DEPTH;
            k = k + 1;
        }
        proof {
            assert(self.colors@ =~= cleared_colors(old(self).width as int, old(self).height as int));
            assert(self.depths@ =~= cleared_depths(old(self).width as int, old(self).height as int));
        }
    }

    /// Traces the segment from `from` to `to` with Bresenham's integer walk
    /// and writes `color` at every visited pixel that the constant `depth`
    /// key wins: exactly the pixels and tests of `plotted_all` over
    /// `line_points`.
    pub fn draw_line(
        &mut self,
        from: (usize, usize),
        to: (usize, usize),
        color: (u8, u8, u8),
        depth: u64,
    )
        requires
            old(self).well_formed(),
            from.0 < old(self).width,
            from.1 < old(self).height,
            to.0 < old(self).width,
            to.1 < old(self).height,
        ensures
            final(self).well_formed(),
            final(self).width == old(self).width,
            final(self).height == old(self).height,
            final(self).colors@ == plotted_all(
                old(self).colors@,
                old(self).depths@,
                old(self).width as int,
                old(self).height as int,
                line_points(from.0 as int, from.1 as int, to.0 as int, to.1 as int),
                color,
                depth,
            ).0,
            final(self).depths@ == plotted_all(
                old(self).colors@,
                old(self).depths@,
                old(self).width as int,
                old(self).height as int,
                line_points(from.0 as int, from.1 as int, to.0 as int, to.1 as int),
                color,
                depth,
            ).1,
    {
        let w = self.width;
        let h = self.height;
        let x0 = from.0 as i64;
        let y0 = from.1 as i64;
        let x1 = to.0 as i64;
        let y1 = to.1 as i64;
        let dx = if x1 >= x0 {
            x1 - x0
        } else {
            x0 - x1
        };
        let dy = if y1 >= y0 {
            y1 - y0
        } else {
            y0 - y1
        };
        let sx: i64 = if x0 < x1 {
            1
        } else {
            -1
        };
        let sy: i64 = if y0 < y1 {
            1
        } else {
            -1
        };
        let mut err: i64 = dx - dy;
        let mut x = x0;
        let mut y = y0;
        let ghost target = plotted_all(
            self.colors@,
            self.depths@,
            w as int,
            h as int,
            line_points(x0 as int, y0 as int, x1 as int, y1 as int),
            color,
            depth,
        );
        proof {
            assert(span(x0 as int, x1 as int) * 0 == 0 && span(y0 as int, y1 as int) * 0 == 0)
                by (nonlinear_arith);
            assert(bres_inv(x0 as int, y0 as int, x1 as int, y1 as int, x as int, y as int,
                err as int));
        }
        loop
            invariant
                self.well_formed(),
                self.width == w,
                self.height == h,
                w <= MAX_SIDE,
                h <= MAX_SIDE,
                0 <= x0 < w,
                0 <= y0 < h,
                0 <= x1 < w,
                0 <= y1 < h,
                dx == span(x0 as int, x1 as int),
                dy == span(y0 as int, y1 as int),
                sx == step_sign(x0 as int, x1 as int),
                sy == step_sign(y0 as int, y1 as int),
                bres_inv(x0 as int, y0 as int, x1 as int, y1 as int, x as int, y as int, err as int),
                plotted_all(
                    self.colors@,
                    self.depths@,
                    w as int,
                    h as int,
                    bres_points(
                        x as int,
                        y as int,
                        err as int,
                        x1 as int,
                        y1 as int,
                        sx as int,
                        sy as int,
                        dx as int,
                        dy as int,
                        bres_measure(x0 as int, y0 as int, x1 as int, y1 as int, x as int, y as int) as nat,
                    ),
                    color,
                    depth,
                ) == target,
            ensures
                self.well_formed(),
                self.width == w,
                self.height == h,
                self.colors@ == target.0,
                self.depths@ == target.1,
            decreases bres_measure(x0 as int, y0 as int, x1 as int, y1 as int, x as int, y as int),
        {
            proof {
                lemma_bres_box(x0 as int, y0 as int, x1 as int, y1 as int, x as int, y as int,
                    err as int);
                lemma_grid_size_fits(w as int, h as int);
                lemma_pixel_index_in_range(w as int, h as int, x as int, y as int);
            }
            let ghost colors_before = self.colors@;
            let ghost depths_before = self.depths@;
            let index = (y as usize) * w + (x as usize);
            if depth < self.depths[index] {
                self.colors[index] = color;
                self.depths[index] = depth;
            }
            proof {
                let head = plotted(colors_before, depths_before, w as int, h as int, x as int,
                    y as int, color, depth);
                assert(self.colors@ == head.0 && self.depths@ == head.1);
            }
            if x == x1 && y == y1 {
                proof {
                    let run = bres_points(x as int, y as int, err as int, x1 as int, y1 as int,
                        sx as int, sy as int, dx as int, dy as int, bres_measure(x0 as int,
                        y0 as int, x1 as int, y1 as int, x as int, y as int) as nat);
                    assert(run == seq![(x as int, y as int)]);
                    assert(run.drop_first() =~= Seq::<(int, int)>::empty());
                    let head = plotted(colors_before, depths_before, w as int, h as int, x as int,
                        y as int, color, depth);
                    assert(plotted_all(head.0, head.1, w as int, h as int, run.drop_first(), color,
                        depth) == (head.0, head.1));
                    assert(plotted_all(colors_before, depths_before, w as int, h as int, run,
                        color, depth) == (head.0, head.1));
                }
                break ;
            }
            proof {
                lemma_bres_step(x0 as int, y0 as int, x1 as int, y1 as int, x as int, y as int,
                    err as int);
                lemma_bres_err_bounds(x0 as int, y0 as int, x1 as int, y1 as int, x as int,
                    y as int, err as int);
            }
            let ghost m = bres_measure(x0 as int, y0 as int, x1 as int, y1 as int, x as int,
                y as int);
            let ghost run = bres_points(x as int, y as int, err as int, x1 as int, y1 as int,
                sx as int, sy as int, dx as int, dy as int, m as nat);
            let ghost stepped = bres_step(x as int, y as int, err as int, sx as int, sy as int,
                dx as int, dy as int);
            let e2 = 2 * err;
            if e2 > -dy {
                err = err - dy;
                x = x + sx;
            }
            if e2 < dx {
                err = err + dx;
                y = y + sy;
            }
            proof {
                assert(stepped == (x as int, y as int, err as int));
                lemma_bres_fuel(x0 as int, y0 as int, x1 as int, y1 as int, x as int, y as int,
                    err as int, (m - 1) as nat, bres_measure(x0 as int, y0 as int, x1 as int,
                    y1 as int, x as int, y as int) as nat);
                assert(run.drop_first() =~= bres_points(x as int, y as int, err as int, x1 as int,
                    y1 as int, sx as int, sy as int, dx as int, dy as int, (m - 1) as nat));
            }
        }
    }

    /// Width of the raster in pixels.
    pub fn width(&self) -> (w: usize)
        ensures
            w == self.width,
    {
        self.width
    }

    /// Height of the raster in pixels.
    pub fn height(&self) -> (h: usize)
        ensures
            h == self.height,
    {
        self.height
    }

    /// The color buffer, row by row from the top.
    pub fn colors(&self) -> (colors: &Vec<(u8, u8, u8)>)
        ensures
            colors == self.colors,
    {
        &self.colors
    }

    /// The color at pixel `(x, y)`.
    pub fn color_at(&self, x: usize, y: usize) -> (color: (u8, u8, u8))
        requires
            self.well_formed(),
            x < self.width,
            y < self.height,
        ensures
            color == self.colors@[y * self.width + x],
    {
        proof {
            lemma_grid_size_fits(self.width as int, self.height as int);
            lemma_pixel_index_in_range(self.width as int, self.height as int, x as int, y as int);
        }
        self.colors[y * self.width + x]
    }
}

/// Distinct pixels of the grid live at distinct row-major indices.
pub proof fn lemma_pixel_index_injective(
    width: int,
    height: int,
    x1: int,
    y1: int,
    x2: int,
    y2: int,
)
    requires
        0 <= x1 < width,
        0 <= y1 < height,
        0 <= x2 < width,
        0 <= y2 < height,
        !(x1 == x2 && y1 == y2),
    ensures
        y1 * width + x1 != y2 * width + x2,
{
    assert(y1 * width + x1 != y2 * width + x2) by (nonlinear_arith)
        requires
            0 <= x1 < width,
            0 <= x2 < width,
            !(x1 == x2 && y1 == y2),
    ;
}

/// Two single-pixel writes at different depth keys land the same whichever
/// order they come in: writes never tie, so order cannot matter.
pub proof fn lemma_plotted_commutes(
    colors: Seq<(u8, u8, u8)>,
    depths: Seq<u64>,
    width: int,
    height: int,
    x1: int,
    y1: int,
    c1: (u8, u8, u8),
    d1: u64,
    x2: int,
    y2: int,
    c2: (u8, u8, u8),
    d2: u64,
)
    requires
        colors.len() == width * height,
        depths.len() == width * height,
        d1 != d2 || !(x1 == x2 && y1 == y2),
    ensures
        plotted(
            plotted(colors, depths, width, height, x1, y1, c1, d1).0,
            plotted(colors, depths, width, height, x1, y1, c1, d1).1,
            width,
            height,
            x2,
            y2,
            c2,
            d2,
        ) == plotted(
            plotted(colors, depths, width, height, x2, y2, c2, d2).0,
            plotted(colors, depths, width, height, x2, y2, c2, d2).1,
            width,
            height,
            x1,
            y1,
            c1,
            d1,
        ),
{
    let in1 = 0 <= x1 < width && 0 <= y1 < height;
    let in2 = 0 <= x2 < width && 0 <= y2 < height;
    let i = y1 * width + x1;
    let j = y2 * width + x2;
    if in1 && in2 {
        lemma_pixel_index_in_range(width, height, x1, y1);
        lemma_pixel_index_in_range(width, height, x2, y2);
        if x1 == x2 && y1 == y2 {
            assert(colors.update(i, c1).update(i, c2) =~= colors.update(i, c2));
            assert(colors.update(i, c2).update(i, c1) =~= colors.update(i, c1));
            assert(depths.update(i, d1).update(i, d2) =~= depths.update(i, d2));
            assert(depths.update(i, d2).update(i, d1) =~= depths.update(i, d1));
        } else {
            lemma_pixel_index_injective(width, height, x1, y1, x2, y2);
            assert(colors.update(i, c1).update(j, c2) =~= colors.update(j, c2).update(i, c1));
            assert(depths.update(i, d1).update(j, d2) =~= depths.update(j, d2).update(i, d1));
        }
    }
}

/// Depth correctness at one pixel: when two colors land on the same pixel
/// at different depth keys and the nearer one beats the buffer, the nearer
/// color and key survive, independent of the order of the two writes.
pub proof fn lemma_nearer_write_wins(
    colors: Seq<(u8, u8, u8)>,
    depths: Seq<u64>,
    width: int,
    height: int,
    x: int,
    y: int,
    c1: (u8, u8, u8),
    d1: u64,
    c2: (u8, u8, u8),
    d2: u64,
)
    requires
        0 <= x < width,
        0 <= y < height,
        depths.len() == width * height,
        colors.len() == width * height,
        d1 < d2,
        d1 < depths[y * width + x],
    ensures
        plotted(
            plotted(colors, depths, width, height, x, y, c1, d1).0,
            plotted(colors, depths, width, height, x, y, c1, d1).1,
            width,
            height,
            x,
            y,
            c2,
            d2,
        ).0[y * width + x] == c1,
        plotted(
            plotted(colors, depths, width, height, x, y, c1, d1).0,
            plotted(colors, depths, width, height, x, y, c1, d1).1,
            width,
            height,
            x,
            y,
            c2,
            d2,
        ).1[y * width + x] == d1,
        plotted(
            plotted(colors, depths, width, height, x, y, c2, d2).0,
            plotted(colors, depths, width, height, x, y, c2, d2).1,
            width,
            height,
            x,
            y,
            c1,
            d1,
        ).0[y * width + x] == c1,
        plotted(
            plotted(colors, depths, width, height, x, y, c2, d2).0,
            plotted(colors, depths, width, height, x, y, c2, d2).1,
            width,
            height,
            x,
            y,
            c1,
            d1,
        ).1[y * width + x] == d1,
{
    lemma_pixel_index_in_range(width, height, x, y);
}

/// The pixel count of a raster with sides at most `MAX_SIDE` fits `usize`.
pub proof fn lemma_grid_size_fits(width: int, height: int)
    requires
        0 <= width <= MAX_SIDE,
        0 <= height <= MAX_SIDE,
    ensures
        0 <= width * height <= MAX_SIDE * MAX_SIDE,
{
    assert(width * height <= MAX_SIDE * MAX_SIDE && width * height >= 0) by (nonlinear_arith)
        requires
            0 <= width <= MAX_SIDE,
            0 <= height <= MAX_SIDE,
    ;
}

/// A pixel inside the grid has its row-major index inside the buffer.
pub proof fn lemma_pixel_index_in_range(width: int, height: int, x: int, y: int)
    requires
        0 <= x < width,
        0 <= y < height,
    ensures
        0 <= y * width + x < width * height,
{
    assert(y * width + x < width * height) by (nonlinear_arith)
        requires
            0 <= x < width,
            0 <= y < height,
    ;
    assert(y * width >= 0) by (nonlinear_arith)
        requires
            0 <= y,
            0 < width,
    ;
}

} // verus!
