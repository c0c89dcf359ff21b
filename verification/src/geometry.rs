//! Points and rectangles in world coordinates (pixels), with the clamping rules of SDL rectangles:
//! positions stay within `MIN_POSITION..=MAX_POSITION` and sizes within `1..=MAX_SIZE`.

use vstd::prelude::*;

verus! {

/// The largest position and the largest size a rectangle may hold (`i32::MAX / 2`)
pub const MAX_POSITION: i32 = 0x3fff_ffffi32;
/// The smallest position a point or rectangle may hold (`i32::MIN / 2`)
pub const MIN_POSITION: i32 = -0x4000_0000i32;
/// The largest width or height of a rectangle
pub const MAX_SIZE: u32 = 0x3fff_ffffu32;

/// A position value clamped into `MIN_POSITION..=MAX_POSITION`
pub open spec fn clamp_pos(v: int) -> int {
    if v > MAX_POSITION { MAX_POSITION as int } else if v < MIN_POSITION { MIN_POSITION as int } else { v }
}

/// A size clamped into `1..=MAX_SIZE`: rectangles are never empty
pub open spec fn clamp_len(v: int) -> int {
    if v == 0 { 1 } else if v > MAX_SIZE { MAX_SIZE as int } else { v }
}

fn clamp_position(v: i32) -> (r: i32)
    ensures
        r == clamp_pos(v as int),
{
    if v > MAX_POSITION {
        MAX_POSITION
    } else if v < MIN_POSITION {
        MIN_POSITION
    } else {
        v
    }
}

fn clamp_size(v: u32) -> (r: u32)
    ensures
        r == clamp_len(v as int),
{
    if v == 0 {
        1
    } else if v > MAX_SIZE {
        MAX_SIZE
    } else {
        v
    }
}

/// A point in world coordinates
#[derive(Debug, Clone, Copy, PartialEq, Eq, Hash, Structural)]
pub struct Point {
    pub x: i32,
    pub y: i32,
}

/// A rectangle in world coordinates: its top left corner and its size
#[derive(Debug, Clone, Copy, PartialEq, Eq, Hash, Structural)]
pub struct Rect {
    pub x: i32,
    pub y: i32,
    pub w: u32,
    pub h: u32,
}

impl Point {
    /// Both coordinates are within the position range
    pub open spec fn wf(self) -> bool {
        MIN_POSITION <= self.x <= MAX_POSITION && MIN_POSITION <= self.y <= MAX_POSITION
    }

    pub open spec fn spec_new(x: int, y: int) -> Point {
        Point { x: clamp_pos(x) as i32, y: clamp_pos(y) as i32 }
    }

    /// One coordinate moved by `d`, going to the end of the position range when the sum leaves
    /// the range of `i32`
    pub open spec fn shifted(v: int, d: int) -> int {
        if i32::MIN <= v + d <= i32::MAX {
            v + d
        } else if d < 0 {
            MIN_POSITION as int
        } else {
            MAX_POSITION as int
        }
    }

    pub open spec fn spec_offset(self, dx: int, dy: int) -> Point {
        Point::spec_new(Point::shifted(self.x as int, dx), Point::shifted(self.y as int, dy))
    }

    /// Creates a new point, clamping its coordinates into the position range
    pub fn new(x: i32, y: i32) -> (r: Point)
        ensures
            r == Point::spec_new(x as int, y as int),
            r.wf(),
    {
        Point { x: clamp_position(x), y: clamp_position(y) }
    }

    pub fn x(&self) -> (r: i32)
        ensures
            r == self.x,
    {
        self.x
    }

    pub fn y(&self) -> (r: i32)
        ensures
            r == self.y,
    {
        self.y
    }

    /// Returns a new point by shifting this point's coordinates by the given x and y values
    pub fn offset(&self, dx: i32, dy: i32) -> (r: Point)
        ensures
            r == self.spec_offset(dx as int, dy as int),
            r.wf(),
    {
        let x = match self.x.checked_add(dx) {
            Some(v) => v,
            None => if dx < 0 { MIN_POSITION } else { MAX_POSITION },
        };
        let y = match self.y.checked_add(dy) {
            Some(v) => v,
            None => if dy < 0 { MIN_POSITION } else { MAX_POSITION },
        };
        Point::new(x, y)
    }

    /// Returns this point moved back by the coordinates of `other`
    pub fn sub(self, other: Point) -> (r: Point)
        requires
            other.wf(),
        ensures
            r == self.spec_offset(-other.x, -other.y),
            r.wf(),
    {
        self.offset(-other.x, -other.y)
    }
}

impl Rect {
    /// The position is within the position range and both sizes within `1..=MAX_SIZE`
    pub open spec fn wf(self) -> bool {
        &&& MIN_POSITION <= self.x <= MAX_POSITION
        &&& MIN_POSITION <= self.y <= MAX_POSITION
        &&& 1 <= self.w <= MAX_SIZE
        &&& 1 <= self.h <= MAX_SIZE
    }

    pub open spec fn spec_new(x: int, y: int, w: int, h: int) -> Rect {
        Rect { x: clamp_pos(x) as i32, y: clamp_pos(y) as i32, w: clamp_len(w) as u32, h: clamp_len(h) as u32 }
    }

    pub open spec fn spec_right(self) -> int {
        self.x + self.w
    }

    pub open spec fn spec_bottom(self) -> int {
        self.y + self.h
    }

    pub open spec fn spec_center(self) -> Point {
        Point::spec_new(self.x + self.w / 2, self.y + self.h / 2)
    }

    /// The rectangle of the given size whose center is `center`
    pub open spec fn spec_from_center(center: Point, w: int, h: int) -> Rect {
        let cw = clamp_len(w);
        let ch = clamp_len(h);
        Rect {
            x: clamp_pos(clamp_pos(center.x as int) - cw / 2) as i32,
            y: clamp_pos(clamp_pos(center.y as int) - ch / 2) as i32,
            w: cw as u32,
            h: ch as u32,
        }
    }

    pub open spec fn spec_contains_point(self, p: Point) -> bool {
        self.x <= p.x < self.spec_right() && self.y <= p.y < self.spec_bottom()
    }

    /// Creates a new rectangle: the position is clamped into the position range and a size of
    /// zero becomes one
    pub fn new(x: i32, y: i32, width: u32, height: u32) -> (r: Rect)
        ensures
            r == Rect::spec_new(x as int, y as int, width as int, height as int),
            r.wf(),
    {
        Rect { x: clamp_position(x), y: clamp_position(y), w: clamp_size(width), h: clamp_size(height) }
    }

    /// Creates a new rectangle centered on the given position
    pub fn from_center(center: Point, width: u32, height: u32) -> (r: Rect)
        ensures
            r == Rect::spec_from_center(center, width as int, height as int),
            r.wf(),
    {
        let w = clamp_size(width);
        let h = clamp_size(height);
        let cx = clamp_position(center.x);
        let cy = clamp_position(center.y);
        Rect { x: clamp_position(cx - (w / 2) as i32), y: clamp_position(cy - (h / 2) as i32), w, h }
    }

    pub fn x(&self) -> (r: i32)
        ensures
            r == self.x,
    {
        self.x
    }

    pub fn y(&self) -> (r: i32)
        ensures
            r == self.y,
    {
        self.y
    }

    pub fn width(&self) -> (r: u32)
        ensures
            r == self.w,
    {
        self.w
    }

    pub fn height(&self) -> (r: u32)
        ensures
            r == self.h,
    {
        self.h
    }

    pub fn left(&self) -> (r: i32)
        ensures
            r == self.x,
    {
        self.x
    }

    pub fn top(&self) -> (r: i32)
        ensures
            r == self.y,
    {
        self.y
    }

    pub fn right(&self) -> (r: i32)
        requires
            self.wf(),
        ensures
            r == self.spec_right(),
    {
        self.x + self.w as i32
    }

    pub fn bottom(&self) -> (r: i32)
        requires
            self.wf(),
        ensures
            r == self.spec_bottom(),
    {
        self.y + self.h as i32
    }

    /// The center of the rectangle, rounded down
    pub fn center(&self) -> (r: Point)
        requires
            self.wf(),
        ensures
            r == self.spec_center(),
    {
        Point::new(self.x + (self.w / 2) as i32, self.y + (self.h / 2) as i32)
    }

    pub fn top_left(&self) -> (r: Point)
        ensures
            r == Point::spec_new(self.x as int, self.y as int),
    {
        Point::new(self.x, self.y)
    }

    pub fn top_right(&self) -> (r: Point)
        requires
            self.wf(),
        ensures
            r == Point::spec_new(self.spec_right(), self.y as int),
    {
        Point::new(self.right(), self.y)
    }

    pub fn bottom_left(&self) -> (r: Point)
        requires
            self.wf(),
        ensures
            r == Point::spec_new(self.x as int, self.spec_bottom()),
    {
        Point::new(self.x, self.bottom())
    }

    pub fn bottom_right(&self) -> (r: Point)
        requires
            self.wf(),
        ensures
            r == Point::spec_new(self.spec_right(), self.spec_bottom()),
    {
        Point::new(self.right(), self.bottom())
    }

    /// Returns true if the point lies inside the rectangle (the right and the bottom side are
    /// outside)
    pub fn contains_point(&self, p: Point) -> (r: bool)
        requires
            self.wf(),
        ensures
            r == self.spec_contains_point(p),
    {
        p.x >= self.x && p.x < self.right() && p.y >= self.y && p.y < self.bottom()
    }

    /// One coordinate of a rectangle moved by `d`: clamped into the position range, or, when the
    /// sum leaves the range of `i32`, the largest position or the smallest `i32`
    pub open spec fn moved(v: int, d: int) -> int {
        if i32::MIN <= v + d <= i32::MAX {
            clamp_pos(v + d)
        } else if d >= 0 {
            MAX_POSITION as int
        } else {
            i32::MIN as int
        }
    }

    /// The rectangle moved so that its center lies on `p`, keeping its size
    pub open spec fn spec_centered_on(self, p: Point) -> Rect {
        Rect {
            x: clamp_pos(clamp_pos(p.x as int) - self.w / 2) as i32,
            y: clamp_pos(clamp_pos(p.y as int) - self.h / 2) as i32,
            ..self
        }
    }

    /// Moves the rectangle so that its center lies on the given point, keeping its size
    pub fn center_on(&mut self, p: Point)
        requires
            old(self).wf(),
        ensures
            *final(self) == old(self).spec_centered_on(p),
    {
        let half_w = (self.w / 2) as i32;
        let half_h = (self.h / 2) as i32;
        self.x = clamp_position(clamp_position(p.x) - half_w);
        self.y = clamp_position(clamp_position(p.y) - half_h);
    }

    /// Moves the rectangle by the given amounts, keeping its size
    pub fn offset(&mut self, x: i32, y: i32)
        ensures
            final(self).x == Rect::moved(old(self).x as int, x as int),
            final(self).y == Rect::moved(old(self).y as int, y as int),
            final(self).w == old(self).w,
            final(self).h == old(self).h,
    {
        self.x = match self.x.checked_add(x) {
            Some(v) => clamp_position(v),
            None => if x >= 0 { MAX_POSITION } else { i32::MIN },
        };
        self.y = match self.y.checked_add(y) {
            Some(v) => clamp_position(v),
            None => if y >= 0 { MAX_POSITION } else { i32::MIN },
        };
    }
}

} // verus!
