use vstd::prelude::*;

verus! {

/// Rust's integer division by two, which rounds toward zero.
pub open spec fn half_toward_zero(a: int) -> int {
    if a >= 0 {
        a / 2
    } else {
        -((-a) / 2)
    }
}

/// An axis-aligned rectangle of tiles, corners included.
#[derive(Clone, Copy, PartialEq, Eq, Debug)]
pub struct Room {
    pub x0: i32,
    pub y0: i32,
    pub x1: i32,
    pub y1: i32,
}

impl Room {
    /// Whether the two rectangles share a tile or touch along an edge
    /// (every comparison is inclusive).
    pub open spec fn overlaps(self, other: Room) -> bool {
        self.x0 <= other.x1 && self.x1 >= other.x0 && self.y0 <= other.y1 && self.y1 >= other.y0
    }

    /// The center tile used to spawn actors and to anchor corridors.
    pub open spec fn center_of(self) -> (int, int) {
        (half_toward_zero(self.x0 + self.x1), half_toward_zero(self.y0 + self.y1))
    }

    /// Whether tile `(x, y)` lies inside the rectangle.
    pub open spec fn contains(self, x: int, y: int) -> bool {
        self.x0 <= x <= self.x1 && self.y0 <= y <= self.y1
    }

    pub fn new(x: i32, y: i32, width: i32, height: i32) -> (r: Room)
        requires
            i32::MIN <= x + width <= i32::MAX,
            i32::MIN <= y + height <= i32::MAX,
        ensures
            r.x0 == x,
            r.y0 == y,
            r.x1 == x + width,
            r.y1 == y + height,
    {
        Room { x0: x, y0: y, x1: x + width, y1: y + height }
    }

    /// Returns true if the room intersects with another room.
    pub fn intersects(&self, other: &Room) -> (r: bool)
        ensures
            r == self.overlaps(*other),
    {
        self.x0 <= other.x1 && self.x1 >= other.x0 && self.y0 <= other.y1 && self.y1 >= other.y0
    }

    /// Returns the center (or an approximation) of the room.
    pub fn center(&self) -> (r: (i32, i32))
        ensures
            r.0 == self.center_of().0,
            r.1 == self.center_of().1,
    {
        let x = ((self.x0 as i64 + self.x1 as i64) / 2) as i32;
        let y = ((self.y0 as i64 + self.y1 as i64) / 2) as i32;
        (x, y)
    }
}

} // verus!
