//! Rectangular regions of a buffer and the quadrant split shared by the
//! builder and the renderer.
use vstd::prelude::*;

verus! {

/// The mathematical rectangle: origin `(x, y)` and extent `w × h`.
pub struct Rect {
    pub x: int,
    pub y: int,
    pub w: int,
    pub h: int,
}

impl Rect {
    pub open spec fn contains(self, px: int, py: int) -> bool {
        self.x <= px < self.x + self.w && self.y <= py < self.y + self.h
    }

    pub open spec fn area(self) -> int {
        self.w * self.h
    }

    /// Too thin to split: one pixel wide or tall (or empty).
    pub open spec fn is_degenerate(self) -> bool {
        self.w <= 1 || self.h <= 1
    }

    /// Quadrant `i` (upper-left, upper-right, lower-left, lower-right): the
    /// halves are floored and the right and bottom quadrants take the rest.
    pub open spec fn quadrant(self, i: int) -> Rect {
        let hw = self.w / 2;
        let hh = self.h / 2;
        if i == 0 {
            Rect { x: self.x, y: self.y, w: hw, h: hh }
        } else if i == 1 {
            Rect { x: self.x + hw, y: self.y, w: self.w - hw, h: hh }
        } else if i == 2 {
            Rect { x: self.x, y: self.y + hh, w: hw, h: self.h - hh }
        } else {
            Rect { x: self.x + hw, y: self.y + hh, w: self.w - hw, h: self.h - hh }
        }
    }

    /// The same rectangle with its width and height each one less: the part a
    /// child fills in line mode, leaving a one-pixel gutter.
    pub open spec fn inset(self) -> Rect {
        Rect { x: self.x, y: self.y, w: self.w - 1, h: self.h - 1 }
    }

    /// The rectangle lies in a buffer of extent `(width, height)`.
    pub open spec fn within(self, width: int, height: int) -> bool {
        0 <= self.x && 0 <= self.y && 0 <= self.w && 0 <= self.h && self.x + self.w <= width
            && self.y + self.h <= height
    }
}

/// Every point of a rectangle lies in exactly one of its quadrants, and no
/// point outside it lies in any.
pub proof fn lemma_quadrants_partition(r: Rect, px: int, py: int)
    requires
        r.w >= 0,
        r.h >= 0,
    ensures
        r.contains(px, py) <==> (r.quadrant(0).contains(px, py) || r.quadrant(1).contains(px, py)
            || r.quadrant(2).contains(px, py) || r.quadrant(3).contains(px, py)),
        forall|i: int, j: int|
            0 <= i < 4 && 0 <= j < 4 && i != j ==> !(r.quadrant(i).contains(px, py)
                && r.quadrant(j).contains(px, py)),
{
}

/// A region of a buffer: origin `(x, y)` and extent `width × height`.
#[derive(Clone, Copy, Debug, PartialEq, Eq, Structural)]
pub struct Region {
    pub x: u32,
    pub y: u32,
    pub width: u32,
    pub height: u32,
}

impl Region {
    pub open spec fn view(self) -> Rect {
        Rect { x: self.x as int, y: self.y as int, w: self.width as int, h: self.height as int }
    }

    /// The four quadrants, upper-left, upper-right, lower-left, lower-right.
    pub fn quadrants(&self) -> (r: [Region; 4])
        requires
            self.x + self.width <= u32::MAX,
            self.y + self.height <= u32::MAX,
        ensures
            forall|i: int| 0 <= i < 4 ==> (#[trigger] r[i])@ == self@.quadrant(i),
    {
        let hw = self.width / 2;
        let hh = self.height / 2;
        let r = [
            Region { x: self.x, y: self.y, width: hw, height: hh },
            Region { x: self.x + hw, y: self.y, width: self.width - hw, height: hh },
            Region { x: self.x, y: self.y + hh, width: hw, height: self.height - hh },
            Region {
                x: self.x + hw,
                y: self.y + hh,
                width: self.width - hw,
                height: self.height - hh,
            },
        ];
        assert forall|i: int| 0 <= i < 4 implies (#[trigger] r[i])@ == self@.quadrant(i) by {
            if i == 0 {
            } else if i == 1 {
            } else if i == 2 {
            } else {
            }
        }
        r
    }
}

} // verus!
