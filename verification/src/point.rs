//! Cursor arithmetic: a position in a buffer and the motions that move it.

use vstd::prelude::*;

verus! {

/// A cursor position: column `x` within a line, row `y` within a buffer.
#[derive(PartialEq, Eq, Structural, Copy, Clone, Debug)]
pub struct Point {
    pub x: usize,
    pub y: usize,
}

/// A cursor motion. Motions are requests, not stored state: the editor turns
/// one into a new, clamped `Point`.
#[derive(PartialEq, Eq, Structural, Copy, Clone, Debug)]
pub enum Direction {
    Up,
    Down,
    Left,
    Right,
    BeginningOfLine,
    EndOfLine,
    BeginningOfFile,
    EndOfFile,
}

impl Point {
    pub fn new(x: usize, y: usize) -> (r: Point)
        ensures
            r == (Point { x, y }),
    {
        Point { x, y }
    }

    /// The raw destination of one motion step, before any clamping to the
    /// buffer contents. Coordinates saturate at their bounds instead of
    /// wrapping. `EndOfLine` and `EndOfFile` need the buffer to be resolved,
    /// so they leave the point unchanged here.
    pub open spec fn spec_with_direction(self, direction: Direction) -> Point {
        match direction {
            Direction::Up => (Point { x: self.x, y: sat_dec(self.y) }),
            Direction::Down => (Point { x: self.x, y: sat_inc(self.y) }),
            Direction::Left => (Point { x: sat_dec(self.x), y: self.y }),
            Direction::Right => (Point { x: sat_inc(self.x), y: self.y }),
            Direction::BeginningOfLine => (Point { x: 0, y: self.y }),
            Direction::BeginningOfFile => (Point { x: 0, y: 0 }),
            Direction::EndOfLine => self,
            Direction::EndOfFile => self,
        }
    }

    pub fn with_direction(&self, direction: Direction) -> (r: Point)
        ensures
            r == self.spec_with_direction(direction),
    {
        match direction {
            Direction::Up => Point::new(self.x, if self.y > 0 { self.y - 1 } else { 0 }),
            Direction::Down => Point::new(
                self.x,
                if self.y < usize::MAX { self.y + 1 } else { self.y },
            ),
            Direction::Left => Point::new(if self.x > 0 { self.x - 1 } else { 0 }, self.y),
            Direction::Right => Point::new(
                if self.x < usize::MAX { self.x + 1 } else { self.x },
                self.y,
            ),
            Direction::BeginningOfLine => Point::new(0, self.y),
            Direction::BeginningOfFile => Point::new(0, 0),
            Direction::EndOfLine => *self,
            Direction::EndOfFile => *self,
        }
    }

    /// Displace the point by a signed offset, clamping negative results to 0.
    pub fn offset(&self, dx: isize, dy: isize) -> (r: Point)
        requires
            self.x + dx <= isize::MAX,
            self.y + dy <= isize::MAX,
            self.x <= isize::MAX,
            self.y <= isize::MAX,
        ensures
            r.x == if self.x + dx >= 0 { self.x + dx } else { 0 },
            r.y == if self.y + dy >= 0 { self.y + dy } else { 0 },
    {
        let x: isize = self.x as isize + dx;
        let y: isize = self.y as isize + dy;
        Point::new(
            if x >= 0 { x as usize } else { 0 },
            if y >= 0 { y as usize } else { 0 },
        )
    }

    /// Clamp both coordinates from above.
    pub fn clamp_by(&mut self, max_x: usize, max_y: usize)
        ensures
            final(self).x == if old(self).x <= max_x { old(self).x } else { max_x },
            final(self).y == if old(self).y <= max_y { old(self).y } else { max_y },
    {
        if self.x > max_x {
            self.x = max_x;
        }
        if self.y > max_y {
            self.y = max_y;
        }
    }
}

/// Decrease by one, stopping at 0.
pub open spec fn sat_dec(n: usize) -> usize {
    if n > 0 {
        (n - 1) as usize
    } else {
        0
    }
}

/// Increase by one, stopping at `usize::MAX`.
pub open spec fn sat_inc(n: usize) -> usize {
    if n < usize::MAX {
        (n + 1) as usize
    } else {
        n
    }
}

} // verus!
