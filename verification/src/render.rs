//! The frame renderer: walks an ordered point path and draws depth-tested
//! line segments between consecutive visible points.
//!
//! Projection onto the view plane works on real-valued coordinates, so the
//! host performs it and hands the renderer one outcome per path point: the
//! pixel and depth key where the point landed, or — when the point failed
//! the visibility test — the projected first boundary-plane cut of the
//! segment from the previous point, if there was one. The renderer keeps
//! the sequence discipline: a segment is drawn only from the previous
//! *projected* point, a boundary reconnection is drawn with the current
//! point's color but never becomes the previous point, and every path point,
//! visible or not, resets what the next segment may connect to.

use vstd::prelude::*;

use crate::raster::MAX_SIDE;
use crate::raster::Raster;
use crate::raster::cleared_colors;
use crate::raster::cleared_depths;
use crate::raster::line_points;
use crate::raster::plotted_all;

verus! {

/// A path point that passed the visibility test: its pixel and the depth
/// key of its squared camera distance.
#[derive(Clone, Copy)]
pub struct VisiblePixel {
    /// Pixel column, within the raster's width.
    pub x: usize,
    /// Pixel row, within the raster's height.
    pub y: usize,
    /// Order-preserving key of the point's squared camera distance.
    pub depth: u64,
}

/// What projecting one path point made of it.
#[derive(Clone, Copy)]
pub enum PointOutcome {
    /// The point projected onto the view rectangle.
    Visible(VisiblePixel),
    /// The point failed the visibility test. When a previous path point
    /// existed, the host cut the 3-D segment from it against the four
    /// boundary planes in their fixed order (top, right, bottom, left),
    /// took the first cut, and projected that; this carries the result.
    Hidden(Option<VisiblePixel>),
}

/// One path point as the renderer sees it.
#[derive(Clone, Copy)]
pub struct PointEvent {
    /// The point's color; a drawn segment carries the color of its newer end.
    pub color: (u8, u8, u8),
    /// The point's projection outcome.
    pub outcome: PointOutcome,
}

/// Every pixel the event names lies inside a `width * height` raster.
pub open spec fn event_in_bounds(ev: PointEvent, width: int, height: int) -> bool {
    match ev.outcome {
        PointOutcome::Visible(vp) => vp.x < width && vp.y < height,
        PointOutcome::Hidden(reconnect) => match reconnect {
            Some(vp) => vp.x < width && vp.y < height,
            None => true,
        },
    }
}

/// The buffers after rendering `events` onto `colors`/`depths`, with `prev`
/// the last point that projected (and nothing drawn yet for it). A visible
/// point draws a segment from `prev` at the new point's depth key and
/// becomes `prev`; a hidden point draws its boundary reconnection, if any,
/// from `prev`, and clears `prev` either way.
pub open spec fn rendered(
    colors: Seq<(u8, u8, u8)>,
    depths: Seq<u64>,
    width: int,
    height: int,
    prev: Option<VisiblePixel>,
    events: Seq<PointEvent>,
) -> (Seq<(u8, u8, u8)>, Seq<u64>)
    decreases events.len(),
{
    if events.len() == 0 {
        (colors, depths)
    } else {
        let ev = events[0];
        match ev.outcome {
            PointOutcome::Visible(vp) => {
                let drawn = match prev {
                    Some(p) => plotted_all(
                        colors,
                        depths,
                        width,
                        height,
                        line_points(p.x as int, p.y as int, vp.x as int, vp.y as int),
                        ev.color,
                        vp.depth,
                    ),
                    None => (colors, depths),
                };
                rendered(drawn.0, drawn.1, width, height, Some(vp), events.drop_first())
            },
            PointOutcome::Hidden(reconnect) => {
                let drawn = match (prev, reconnect) {
                    (Some(p), Some(rp)) => plotted_all(
                        colors,
                        depths,
                        width,
                        height,
                        line_points(p.x as int, p.y as int, rp.x as int, rp.y as int),
                        ev.color,
                        rp.depth,
                    ),
                    _ => (colors, depths),
                };
                rendered(drawn.0, drawn.1, width, height, None, events.drop_first())
            },
        }
    }
}

/// Owns the reusable raster and renders point paths into it.
pub struct Renderer {
    /// The color and depth buffers the renderer draws into.
    pub raster: Raster,
}

impl Renderer {
    /// The raster's buffers cover its grid.
    pub open spec fn well_formed(&self) -> bool {
        self.raster.well_formed()
    }

    /// A renderer with a cleared raster of the given size.
    pub fn new(width: usize, height: usize) -> (renderer: Renderer)
        requires
            width <= MAX_SIDE,
            height <= MAX_SIDE,
        ensures
            renderer.well_formed(),
            renderer.raster.width == width,
            renderer.raster.height == height,
    {
        Renderer { raster: Raster::new(width, height) }
    }

    /// Renders one frame: resets both buffers, then walks the events in
    /// path order, drawing each visible point's segment from the previous
    /// projected point and each hidden point's boundary reconnection. The
    /// result is a function of the raster size and the events alone — what
    /// the buffers held before does not reach it — so rendering the same
    /// events again yields the identical raster.
    pub fn map_to_pixels2d(&mut self, events: &Vec<PointEvent>)
        requires
            old(self).well_formed(),
            forall|q: int|
                0 <= q < events@.len() ==> #[trigger] event_in_bounds(
                    events@[q],
                    old(self).raster.width as int,
                    old(self).raster.height as int,
                ),
        ensures
            final(self).well_formed(),
            final(self).raster.width == old(self).raster.width,
            final(self).raster.height == old(self).raster.height,
            final(self).raster.colors@ == rendered(
                cleared_colors(old(self).raster.width as int, old(self).raster.height as int),
                cleared_depths(old(self).raster.width as int, old(self).raster.height as int),
                old(self).raster.width as int,
                old(self).raster.height as int,
                None,
                events@,
            ).0,
            final(self).raster.depths@ == rendered(
                cleared_colors(old(self).raster.width as int, old(self).raster.height as int),
                cleared_depths(old(self).raster.width as int, old(self).raster.height as int),
                old(self).raster.width as int,
                old(self).raster.height as int,
                None,
                events@,
            ).1,
    {
        self.raster.clear();
        let ghost w = self.raster.width as int;
        let ghost h = self.raster.height as int;
        let ghost target = rendered(self.raster.colors@, self.raster.depths@, w, h, None, events@);
        let mut prev: Option<VisiblePixel> = None;
        let mut k: usize = 0;
        proof {
            assert(events@.skip(0) =~= events@);
        }
        while k < events.len()
            invariant
                self.well_formed(),
                self.raster.width == old(self).raster.width,
                self.raster.height == old(self).raster.height,
                w == self.raster.width as int,
                h == self.raster.height as int,
                k <= events@.len(),
                forall|q: int|
                    0 <= q < events@.len() ==> #[trigger] event_in_bounds(events@[q], w, h),
                (prev matches Some(p) ==> p.x < w && p.y < h),
                rendered(self.raster.colors@, self.raster.depths@, w, h, prev, events@.skip(k as int))
                    == target,
            decreases events@.len() - k,
        {
            proof {
                assert(events@.skip(k as int)[0] == events@[k as int]);
                assert(events@.skip(k as int).drop_first() =~= events@.skip(k as int + 1));
                assert(event_in_bounds(events@[k as int], w, h));
            }
            let ev = &events[k];
            match &ev.outcome {
                PointOutcome::Visible(vp) => {
                    if let Some(p) = prev {
                        self.raster.draw_line((p.x, p.y), (vp.x, vp.y), ev.color, vp.depth);
                    }
                    prev = Some(*vp);
                },
                PointOutcome::Hidden(reconnect) => {
                    if let Some(rp) = reconnect {
                        if let Some(p) = prev {
                            self.raster.draw_line((p.x, p.y), (rp.x, rp.y), ev.color, rp.depth);
                        }
                    }
                    prev = None;
                },
            }
            k = k + 1;
        }
        proof {
            assert(events@.skip(events@.len() as int) =~= Seq::<PointEvent>::empty());
        }
    }

    /// The color buffer of the last rendered frame, row by row from the top.
    pub fn colors(&self) -> (colors: &Vec<(u8, u8, u8)>)
        ensures
            colors == self.raster.colors,
    {
        self.raster.colors()
    }
}

/// Rendering is deterministic: a frame is a function of the raster size and
/// the point events alone, so rendering the same events twice into freshly
/// reset buffers — as `map_to_pixels2d` promises of every call — leaves
/// identical rasters.
pub proof fn lemma_render_deterministic(
    first: (Seq<(u8, u8, u8)>, Seq<u64>),
    second: (Seq<(u8, u8, u8)>, Seq<u64>),
    width: int,
    height: int,
    events: Seq<PointEvent>,
)
    requires
        first == rendered(
            cleared_colors(width, height),
            cleared_depths(width, height),
            width,
            height,
            None,
            events,
        ),
        second == rendered(
            cleared_colors(width, height),
            cleared_depths(width, height),
            width,
            height,
            None,
            events,
        ),
    ensures
        first == second,
{
}

} // verus!
