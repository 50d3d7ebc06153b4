//! Properties of the builder and the renderer taken together.
use vstd::prelude::*;
use crate::buffer::{extent_of, pixels_of, Color, PixelBuffer};
use crate::region::{lemma_quadrants_partition, Rect};
use crate::stats::{
    dispersion, is_uniform, lemma_rect_dev_bounds, lemma_uniform_mean, mean_color, pixel_at,
};
use crate::tree::{build_spec, painted, paints, QuadTree};

verus! {

/// The number of leaves of a tree.
pub open spec fn leaf_count(t: QuadTree) -> nat
    decreases t,
{
    match t {
        QuadTree::Leaf(_) => 1,
        QuadTree::Node(c0, c1, c2, c3) => leaf_count(*c0) + leaf_count(*c1) + leaf_count(*c2)
            + leaf_count(*c3),
    }
}

/// The summed area of the leaves of `t` laid over `r`.
pub open spec fn leaf_area(t: QuadTree, r: Rect) -> int
    decreases t,
{
    match t {
        QuadTree::Leaf(_) => r.area(),
        QuadTree::Node(c0, c1, c2, c3) => leaf_area(*c0, r.quadrant(0)) + leaf_area(
            *c1,
            r.quadrant(1),
        ) + leaf_area(*c2, r.quadrant(2)) + leaf_area(*c3, r.quadrant(3)),
    }
}

/// How many leaves of `t` laid over `r` have `(px, py)` in their region.
pub open spec fn leaves_covering(t: QuadTree, r: Rect, px: int, py: int) -> nat
    decreases t,
{
    match t {
        QuadTree::Leaf(_) => if r.contains(px, py) {
            1
        } else {
            0
        },
        QuadTree::Node(c0, c1, c2, c3) => leaves_covering(*c0, r.quadrant(0), px, py)
            + leaves_covering(*c1, r.quadrant(1), px, py) + leaves_covering(
            *c2,
            r.quadrant(2),
            px,
            py,
        ) + leaves_covering(*c3, r.quadrant(3), px, py),
    }
}

/// Every node of `t` laid over `r` covers a region at least two pixels wide
/// and tall.
pub open spec fn splits_only_wide(t: QuadTree, r: Rect) -> bool
    decreases t,
{
    match t {
        QuadTree::Leaf(_) => true,
        QuadTree::Node(c0, c1, c2, c3) => !r.is_degenerate() && splits_only_wide(
            *c0,
            r.quadrant(0),
        ) && splits_only_wide(*c1, r.quadrant(1)) && splits_only_wide(*c2, r.quadrant(2))
            && splits_only_wide(*c3, r.quadrant(3)),
    }
}

/// The whole of a buffer as a rectangle.
pub open spec fn full_rect(b: PixelBuffer) -> Rect {
    Rect { x: 0, y: 0, w: extent_of(b).0 as int, h: extent_of(b).1 as int }
}

/// The leaves of any tree tile the rectangle it is laid over: their areas
/// sum to its area, and each point of the rectangle lies in exactly one leaf
/// and no point outside it in any.
pub proof fn lemma_leaves_tile(t: QuadTree, r: Rect, px: int, py: int)
    requires
        r.w >= 0,
        r.h >= 0,
    ensures
        leaf_area(t, r) == r.area(),
        leaves_covering(t, r, px, py) == if r.contains(px, py) {
            1nat
        } else {
            0nat
        },
    decreases t,
{
    match t {
        QuadTree::Leaf(_) => {},
        QuadTree::Node(c0, c1, c2, c3) => {
            lemma_leaves_tile(*c0, r.quadrant(0), px, py);
            lemma_leaves_tile(*c1, r.quadrant(1), px, py);
            lemma_leaves_tile(*c2, r.quadrant(2), px, py);
            lemma_leaves_tile(*c3, r.quadrant(3), px, py);
            lemma_quadrants_partition(r, px, py);
            let hw = r.w / 2;
            let hh = r.h / 2;
            assert(hw * hh + (r.w - hw) * hh + hw * (r.h - hh) + (r.w - hw) * (r.h - hh) == r.w
                * r.h) by (nonlinear_arith);
        },
    }
}

proof fn lemma_leaf_count_positive(t: QuadTree)
    ensures
        leaf_count(t) >= 1,
    decreases t,
{
    match t {
        QuadTree::Leaf(_) => {},
        QuadTree::Node(c0, c1, c2, c3) => {
            lemma_leaf_count_positive(*c0);
        },
    }
}

/// Raising `detail` never adds leaves to the tree built for a rectangle.
pub proof fn lemma_detail_monotonic(b: PixelBuffer, r: Rect, d1: int, d2: int)
    requires
        r.w >= 1,
        r.h >= 1,
        0 <= d1 <= d2,
    ensures
        leaf_count(build_spec(b, r, d2)) <= leaf_count(build_spec(b, r, d1)),
    decreases r.w + r.h,
{
    if !r.is_degenerate() {
        assert(d1 * d1 <= d2 * d2) by (nonlinear_arith)
            requires
                0 <= d1 <= d2,
        ;
        let disp = dispersion(b, r);
        let t2 = build_spec(b, r, d2);
        if disp < d1 * d1 {
        } else if disp < d2 * d2 {
            assert(leaf_count(t2) == 4) by {
                reveal_with_fuel(leaf_count, 2);
            }
            lemma_leaf_count_positive(build_spec(b, r.quadrant(0), d1));
            lemma_leaf_count_positive(build_spec(b, r.quadrant(1), d1));
            lemma_leaf_count_positive(build_spec(b, r.quadrant(2), d1));
            lemma_leaf_count_positive(build_spec(b, r.quadrant(3), d1));
        } else {
            lemma_detail_monotonic(b, r.quadrant(0), d1, d2);
            lemma_detail_monotonic(b, r.quadrant(1), d1, d2);
            lemma_detail_monotonic(b, r.quadrant(2), d1, d2);
            lemma_detail_monotonic(b, r.quadrant(3), d1, d2);
        }
    }
}

proof fn lemma_built_splits_only_wide(b: PixelBuffer, r: Rect, d: int)
    requires
        r.w >= 1,
        r.h >= 1,
    ensures
        splits_only_wide(build_spec(b, r, d), r),
    decreases r.w + r.h,
{
    if !r.is_degenerate() && dispersion(b, r) < d * d {
        reveal_with_fuel(splits_only_wide, 2);
    } else if !r.is_degenerate() {
        lemma_built_splits_only_wide(b, r.quadrant(0), d);
        lemma_built_splits_only_wide(b, r.quadrant(1), d);
        lemma_built_splits_only_wide(b, r.quadrant(2), d);
        lemma_built_splits_only_wide(b, r.quadrant(3), d);
    }
}

/// Without lines, painting any tree over a rectangle colors every pixel of it.
pub proof fn lemma_painted_covers(t: QuadTree, r: Rect, px: int, py: int)
    requires
        r.w >= 0,
        r.h >= 0,
        r.contains(px, py),
    ensures
        painted(t, r, false, px, py) is Some,
    decreases t,
{
    match t {
        QuadTree::Leaf(_) => {},
        QuadTree::Node(c0, c1, c2, c3) => {
            lemma_quadrants_partition(r, px, py);
            if r.quadrant(0).contains(px, py) {
                lemma_painted_covers(*c0, r.quadrant(0), px, py);
            } else if r.quadrant(1).contains(px, py) {
                lemma_painted_covers(*c1, r.quadrant(1), px, py);
            } else if r.quadrant(2).contains(px, py) {
                lemma_painted_covers(*c2, r.quadrant(2), px, py);
            } else {
                lemma_painted_covers(*c3, r.quadrant(3), px, py);
            }
        },
    }
}

/// `b` holds, over `r`, exactly what painting `t` without lines puts there.
pub open spec fn shows(b: PixelBuffer, t: QuadTree, r: Rect) -> bool {
    forall|px: int, py: int|
        r.contains(px, py) ==> #[trigger] painted(t, r, false, px, py) == Some(
            pixel_at(b, px, py),
        )
}

proof fn lemma_rebuild(t: QuadTree, b: PixelBuffer, r: Rect)
    requires
        r.w >= 1,
        r.h >= 1,
        splits_only_wide(t, r),
        shows(b, t, r),
    ensures
        forall|px: int, py: int|
            r.contains(px, py) ==> #[trigger] painted(build_spec(b, r, 0), r, false, px, py)
                == painted(t, r, false, px, py),
    decreases r.w + r.h,
{
    let u = build_spec(b, r, 0);
    if r.is_degenerate() {
        if let QuadTree::Leaf(c) = t {
            assert forall|x: int, y: int| r.contains(x, y) implies #[trigger] pixel_at(b, x, y)
                == c by {
                assert(painted(t, r, false, x, y) == Some(c));
            }
            assert(is_uniform(b, r, c));
            lemma_uniform_mean(b, r, c);
        }
    } else {
        lemma_rect_dev_bounds(b, mean_color(b, r), r);
        assert(!(dispersion(b, r) < 0 * 0));
        assert(u == QuadTree::Node(
            Box::new(build_spec(b, r.quadrant(0), 0)),
            Box::new(build_spec(b, r.quadrant(1), 0)),
            Box::new(build_spec(b, r.quadrant(2), 0)),
            Box::new(build_spec(b, r.quadrant(3), 0)),
        ));
        let ghost kids: Seq<QuadTree> = match t {
            QuadTree::Leaf(c) => seq![t, t, t, t],
            QuadTree::Node(c0, c1, c2, c3) => seq![*c0, *c1, *c2, *c3],
        };
        assert forall|i: int| 0 <= i < 4 implies shows(b, #[trigger] kids[i], r.quadrant(i))
            && splits_only_wide(kids[i], r.quadrant(i)) by {
            let q = r.quadrant(i);
            assert forall|px: int, py: int| q.contains(px, py) implies #[trigger] painted(
                kids[i],
                q,
                false,
                px,
                py,
            ) == Some(pixel_at(b, px, py)) by {
                lemma_quadrants_partition(r, px, py);
                assert(painted(t, r, false, px, py) == Some(pixel_at(b, px, py)));
            }
        }
        assert forall|px: int, py: int| r.contains(px, py) implies #[trigger] painted(
            u,
            r,
            false,
            px,
            py,
        ) == painted(t, r, false, px, py) by {
            lemma_quadrants_partition(r, px, py);
            lemma_rebuild(kids[0], b, r.quadrant(0));
            lemma_rebuild(kids[1], b, r.quadrant(1));
            lemma_rebuild(kids[2], b, r.quadrant(2));
            lemma_rebuild(kids[3], b, r.quadrant(3));
            let i: int = if r.quadrant(0).contains(px, py) {
                0
            } else if r.quadrant(1).contains(px, py) {
                1
            } else if r.quadrant(2).contains(px, py) {
                2
            } else {
                3
            };
            assert(r.quadrant(i).contains(px, py));
            assert(painted(u, r, false, px, py) == painted(
                build_spec(b, r.quadrant(i), 0),
                r.quadrant(i),
                false,
                px,
                py,
            ));
            assert(painted(t, r, false, px, py) == painted(kids[i], r.quadrant(i), false, px, py));
        }
    }
}

/// Painting a built tree without lines and building again at `detail` zero
/// gives, at every pixel, the color of the original tree's leaf there.
pub proof fn lemma_render_then_rebuild(
    b: PixelBuffer,
    detail: int,
    before: Map<(int, int), Color>,
    out: PixelBuffer,
)
    requires
        extent_of(b).0 >= 1,
        extent_of(b).1 >= 1,
        detail >= 0,
        extent_of(out) == extent_of(b),
        paints(before, pixels_of(out), build_spec(b, full_rect(b), detail), full_rect(b), false),
    ensures
        forall|px: int, py: int|
            full_rect(b).contains(px, py) ==> #[trigger] painted(
                build_spec(out, full_rect(out), 0),
                full_rect(out),
                false,
                px,
                py,
            ) == painted(build_spec(b, full_rect(b), detail), full_rect(b), false, px, py),
{
    let r = full_rect(b);
    let t = build_spec(b, r, detail);
    lemma_built_splits_only_wide(b, r, detail);
    assert forall|px: int, py: int| r.contains(px, py) implies #[trigger] painted(
        t,
        r,
        false,
        px,
        py,
    ) == Some(pixel_at(out, px, py)) by {
        lemma_painted_covers(t, r, px, py);
        assert(pixels_of(out)[(px, py)] == pixel_at(out, px, py));
    }
    lemma_rebuild(t, out, r);
}

} // verus!
