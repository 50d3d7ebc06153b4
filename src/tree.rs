//! The adaptive quadtree: building it from a buffer and painting it back.
use vstd::prelude::*;
use crate::buffer::{dimensions, extent_of, pixels_of, put_pixel, Color, PixelBuffer};
use crate::region::{Rect, Region};
use crate::stats::{average, average_n, dispersion, mean_color};

verus! {

/// A quadtree over a rectangular region: a flat-colored leaf, or a node whose
/// four children cover the upper-left, upper-right, lower-left and
/// lower-right quadrants of its region.
#[derive(Debug, PartialEq, Eq)]
pub enum QuadTree {
    Leaf(Color),
    Node(Box<QuadTree>, Box<QuadTree>, Box<QuadTree>, Box<QuadTree>),
}

/// The tree built for rectangle `r` of `b` with threshold `detail`.
pub open spec fn build_spec(b: PixelBuffer, r: Rect, detail: int) -> QuadTree
    decreases r.w + r.h,
{
    if r.is_degenerate() {
        QuadTree::Leaf(mean_color(b, r))
    } else if dispersion(b, r) < detail * detail {
        QuadTree::Node(
            Box::new(QuadTree::Leaf(mean_color(b, r.quadrant(0)))),
            Box::new(QuadTree::Leaf(mean_color(b, r.quadrant(1)))),
            Box::new(QuadTree::Leaf(mean_color(b, r.quadrant(2)))),
            Box::new(QuadTree::Leaf(mean_color(b, r.quadrant(3)))),
        )
    } else {
        QuadTree::Node(
            Box::new(build_spec(b, r.quadrant(0), detail)),
            Box::new(build_spec(b, r.quadrant(1), detail)),
            Box::new(build_spec(b, r.quadrant(2), detail)),
            Box::new(build_spec(b, r.quadrant(3), detail)),
        )
    }
}

/// The color a region too thin to outline in line mode is filled with.
pub const SENTINEL: Color = (255, 0, 255);

/// The rectangle child `i` of a node over `r` is painted into: its quadrant,
/// or in line mode the quadrant less its last column and row.
pub open spec fn child_rect(r: Rect, i: int, lines: bool) -> Rect {
    if lines {
        r.quadrant(i).inset()
    } else {
        r.quadrant(i)
    }
}

/// The color that painting `t` over `r` gives pixel `(px, py)`, or `None`
/// where the pixel is left as it was.
pub open spec fn painted(t: QuadTree, r: Rect, lines: bool, px: int, py: int) -> Option<Color>
    decreases t,
{
    match t {
        QuadTree::Leaf(c) => if r.contains(px, py) {
            Some(c)
        } else {
            None
        },
        QuadTree::Node(c0, c1, c2, c3) => {
            if lines && r.is_degenerate() {
                if r.contains(px, py) {
                    Some(SENTINEL)
                } else {
                    None
                }
            } else if child_rect(r, 0, lines).contains(px, py) {
                painted(*c0, child_rect(r, 0, lines), lines, px, py)
            } else if child_rect(r, 1, lines).contains(px, py) {
                painted(*c1, child_rect(r, 1, lines), lines, px, py)
            } else if child_rect(r, 2, lines).contains(px, py) {
                painted(*c2, child_rect(r, 2, lines), lines, px, py)
            } else if child_rect(r, 3, lines).contains(px, py) {
                painted(*c3, child_rect(r, 3, lines), lines, px, py)
            } else {
                None
            }
        },
    }
}

/// Painting `t` over `r` touches no pixel outside `r`.
pub proof fn lemma_painted_within(t: QuadTree, r: Rect, lines: bool, px: int, py: int)
    ensures
        painted(t, r, lines, px, py) is Some ==> r.contains(px, py),
    decreases t,
{
    match t {
        QuadTree::Leaf(_) => {},
        QuadTree::Node(c0, c1, c2, c3) => {
            if !(lines && r.is_degenerate()) {
                lemma_painted_within(*c0, child_rect(r, 0, lines), lines, px, py);
                lemma_painted_within(*c1, child_rect(r, 1, lines), lines, px, py);
                lemma_painted_within(*c2, child_rect(r, 2, lines), lines, px, py);
                lemma_painted_within(*c3, child_rect(r, 3, lines), lines, px, py);
            }
        },
    }
}

/// What painting `t` over `r` leaves in `after`, from `before`.
pub open spec fn paints(
    before: Map<(int, int), Color>,
    after: Map<(int, int), Color>,
    t: QuadTree,
    r: Rect,
    lines: bool,
) -> bool {
    forall|px: int, py: int|
        #[trigger] after[(px, py)] == match painted(t, r, lines, px, py) {
            Some(c) => c,
            None => before[(px, py)],
        }
}

/// Fills region `r` of `b` with color `c`.
fn fill(b: &mut PixelBuffer, r: Region, c: Color)
    requires
        r@.within(extent_of(*old(b)).0 as int, extent_of(*old(b)).1 as int),
    ensures
        extent_of(*final(b)) == extent_of(*old(b)),
        forall|px: int, py: int|
            #[trigger] pixels_of(*final(b))[(px, py)] == if r@.contains(px, py) {
                c
            } else {
                pixels_of(*old(b))[(px, py)]
            },
{
    let ghost before = pixels_of(*b);
    let mut j: u32 = 0;
    while j < r.height
        invariant
            r@.within(extent_of(*b).0 as int, extent_of(*b).1 as int),
            extent_of(*b) == extent_of(*old(b)),
            before == pixels_of(*old(b)),
            0 <= j <= r.height,
            forall|px: int, py: int|
                #[trigger] pixels_of(*b)[(px, py)] == if (Rect { h: j as int, ..r@ }).contains(
                    px,
                    py,
                ) {
                    c
                } else {
                    before[(px, py)]
                },
        decreases r.height - j,
    {
        let mut i: u32 = 0;
        while i < r.width
            invariant
                r@.within(extent_of(*b).0 as int, extent_of(*b).1 as int),
                extent_of(*b) == extent_of(*old(b)),
                0 <= j < r.height,
                0 <= i <= r.width,
                forall|px: int, py: int|
                    #[trigger] pixels_of(*b)[(px, py)] == if (Rect { h: j as int, ..r@ }).contains(
                        px,
                        py,
                    ) || (py == r.y + j && r.x <= px < r.x + i) {
                        c
                    } else {
                        before[(px, py)]
                    },
            decreases r.width - i,
        {
            put_pixel(b, r.x + i, r.y + j, c);
            i = i + 1;
        }
        j = j + 1;
    }
}

impl QuadTree {
    /// Builds the tree for region `r` of `b`. A region one pixel wide or tall
    /// is a leaf of its mean color. Any other region is a node over its four
    /// quadrants: where the region's dispersion is below `detail²` each child
    /// is a leaf of its quadrant's mean color, else each child is built in
    /// turn.
    pub fn build(b: &PixelBuffer, r: Region, detail: usize) -> (t: QuadTree)
        requires
            r@.within(extent_of(*b).0 as int, extent_of(*b).1 as int),
            r.width >= 1,
            r.height >= 1,
        ensures
            t == build_spec(*b, r@, detail as int),
            r.width == 1 || r.height == 1 ==> t is Leaf,
        decreases r.width + r.height,
    {
        if r.width == 1 || r.height == 1 {
            return QuadTree::Leaf(average(b, r));
        }
        let q = r.quadrants();
        let d = average_n(b, r);
        proof {
            assert((detail as u128) * (detail as u128) <= 0xffff_ffff_ffff_ffff
                * 0xffff_ffff_ffff_ffff) by (nonlinear_arith)
                requires
                    detail <= 0xffff_ffff_ffff_ffff,
            ;
            assert(q[0]@ == r@.quadrant(0));
            assert(q[1]@ == r@.quadrant(1));
            assert(q[2]@ == r@.quadrant(2));
            assert(q[3]@ == r@.quadrant(3));
        }
        if d < (detail as u128) * (detail as u128) {
            QuadTree::Node(
                Box::new(QuadTree::Leaf(average(b, q[0]))),
                Box::new(QuadTree::Leaf(average(b, q[1]))),
                Box::new(QuadTree::Leaf(average(b, q[2]))),
                Box::new(QuadTree::Leaf(average(b, q[3]))),
            )
        } else {
            QuadTree::Node(
                Box::new(QuadTree::build(b, q[0], detail)),
                Box::new(QuadTree::build(b, q[1], detail)),
                Box::new(QuadTree::build(b, q[2], detail)),
                Box::new(QuadTree::build(b, q[3], detail)),
            )
        }
    }

    /// Builds the tree for the whole of `b`.
    pub fn from_img(b: &PixelBuffer, detail: usize) -> (t: QuadTree)
        requires
            extent_of(*b).0 >= 1,
            extent_of(*b).1 >= 1,
        ensures
            t == build_spec(
                *b,
                Rect { x: 0, y: 0, w: extent_of(*b).0 as int, h: extent_of(*b).1 as int },
                detail as int,
            ),
    {
        let (w, h) = dimensions(b);
        QuadTree::build(b, Region { x: 0, y: 0, width: w, height: h }, detail)
    }
}

impl QuadTree {
    /// Paints the tree over region `r` of `b`. A leaf fills its region with
    /// its color; a node paints each child over its quadrant. In line mode
    /// each child is painted over its quadrant less the last column and row,
    /// and a node over a region one pixel wide or tall, which cannot be
    /// outlined so, fills it with `SENTINEL` instead.
    pub fn draw(&self, b: &mut PixelBuffer, r: Region, lines: bool)
        requires
            r@.within(extent_of(*old(b)).0 as int, extent_of(*old(b)).1 as int),
        ensures
            extent_of(*final(b)) == extent_of(*old(b)),
            paints(pixels_of(*old(b)), pixels_of(*final(b)), *self, r@, lines),
        decreases self,
    {
        match self {
            QuadTree::Leaf(c) => {
                fill(b, r, *c);
            },
            QuadTree::Node(c0, c1, c2, c3) => {
                if lines && (r.width <= 1 || r.height <= 1) {
                    fill(b, r, SENTINEL);
                    return;
                }
                let ghost before = pixels_of(*b);
                let q = r.quadrants();
                let mut s = q;
                if lines {
                    s = [
                        Region { width: q[0].width - 1, height: q[0].height - 1, ..q[0] },
                        Region { width: q[1].width - 1, height: q[1].height - 1, ..q[1] },
                        Region { width: q[2].width - 1, height: q[2].height - 1, ..q[2] },
                        Region { width: q[3].width - 1, height: q[3].height - 1, ..q[3] },
                    ];
                }
                assert(s[0]@ == child_rect(r@, 0, lines));
                assert(s[1]@ == child_rect(r@, 1, lines));
                assert(s[2]@ == child_rect(r@, 2, lines));
                assert(s[3]@ == child_rect(r@, 3, lines));
                c0.draw(b, s[0], lines);
                c1.draw(b, s[1], lines);
                c2.draw(b, s[2], lines);
                c3.draw(b, s[3], lines);
                assert forall|px: int, py: int|
                    #[trigger] pixels_of(*b)[(px, py)] == match painted(
                        *self,
                        r@,
                        lines,
                        px,
                        py,
                    ) {
                        Some(c) => c,
                        None => before[(px, py)],
                    } by {
                    lemma_painted_within(**c0, s[0]@, lines, px, py);
                    lemma_painted_within(**c1, s[1]@, lines, px, py);
                    lemma_painted_within(**c2, s[2]@, lines, px, py);
                    lemma_painted_within(**c3, s[3]@, lines, px, py);
                }
            },
        }
    }

    /// Paints the tree over the whole of `b`.
    pub fn draw_full(&self, b: &mut PixelBuffer, lines: bool)
        ensures
            extent_of(*final(b)) == extent_of(*old(b)),
            paints(
                pixels_of(*old(b)),
                pixels_of(*final(b)),
                *self,
                Rect { x: 0, y: 0, w: extent_of(*old(b)).0 as int, h: extent_of(*old(b)).1 as int },
                lines,
            ),
    {
        let (w, h) = dimensions(b);
        self.draw(b, Region { x: 0, y: 0, width: w, height: h }, lines);
    }
}

} // verus!
