//! Positions and steps on the grid.

use vstd::prelude::*;

verus! {

/// A step or a signed position.
#[derive(Debug, Default, Clone, Copy, PartialEq, Eq, Structural)]
pub struct Vec2 {
    pub x: i32,
    pub y: i32,
}

/// A position on the grid.
#[derive(Debug, Default, Clone, Copy, PartialEq, Eq, Structural)]
pub struct Vec2u {
    pub x: usize,
    pub y: usize,
}

/// The step of the principal direction `dir`: north, north-east, east,
/// south-east, south, south-west, west, north-west. North is up: `y` falls.
pub open spec fn principal_step(dir: int) -> (int, int) {
    if dir == 0 {
        (0, -1)
    } else if dir == 1 {
        (1, -1)
    } else if dir == 2 {
        (1, 0)
    } else if dir == 3 {
        (1, 1)
    } else if dir == 4 {
        (0, 1)
    } else if dir == 5 {
        (-1, 1)
    } else if dir == 6 {
        (-1, 0)
    } else {
        (-1, -1)
    }
}

impl Vec2 {
    /// The unsigned form, where no coordinate is negative.
    pub fn unsign(self) -> (r: Option<Vec2u>)
        ensures
            r == (if self.x >= 0 && self.y >= 0 {
                Some(Vec2u { x: self.x as usize, y: self.y as usize })
            } else {
                None
            }),
    {
        if self.x >= 0 && self.y >= 0 {
            Some(Vec2u { x: self.x as usize, y: self.y as usize })
        } else {
            None
        }
    }

    /// The four cardinal steps: north, east, south, west.
    pub fn cardinal() -> (r: [Vec2; 4])
        ensures
            forall|i: int| 0 <= i < 4 ==> (#[trigger] r@[i].x as int, r@[i].y as int) == principal_step(2 * i),
    {
        [Vec2 { x: 0, y: -1 }, Vec2 { x: 1, y: 0 }, Vec2 { x: 0, y: 1 }, Vec2 { x: -1, y: 0 }]
    }

    /// The step of the principal direction `dir`.
    pub fn principal(dir: u8) -> (r: Vec2)
        requires
            dir < 8,
        ensures
            (r.x as int, r.y as int) == principal_step(dir as int),
    {
        if dir == 0 {
            Vec2 { x: 0, y: -1 }
        } else if dir == 1 {
            Vec2 { x: 1, y: -1 }
        } else if dir == 2 {
            Vec2 { x: 1, y: 0 }
        } else if dir == 3 {
            Vec2 { x: 1, y: 1 }
        } else if dir == 4 {
            Vec2 { x: 0, y: 1 }
        } else if dir == 5 {
            Vec2 { x: -1, y: 1 }
        } else if dir == 6 {
            Vec2 { x: -1, y: 0 }
        } else {
            Vec2 { x: -1, y: -1 }
        }
    }

    /// One character for a cardinal step, `o` for no step, `*` for any other.
    pub fn as_str(&self) -> (r: &'static str)
        ensures
            r@ == (if self.x == 0 && self.y == 0 {
                "o"@
            } else if self.x == 0 && self.y == -1 {
                "^"@
            } else if self.x == 1 && self.y == 0 {
                ">"@
            } else if self.x == 0 && self.y == 1 {
                "v"@
            } else if self.x == -1 && self.y == 0 {
                "<"@
            } else {
                "*"@
            }),
    {
        if self.x == 0 && self.y == 0 {
            "o"
        } else if self.x == 0 && self.y == -1 {
            "^"
        } else if self.x == 1 && self.y == 0 {
            ">"
        } else if self.x == 0 && self.y == 1 {
            "v"
        } else if self.x == -1 && self.y == 0 {
            "<"
        } else {
            "*"
        }
    }

    /// The sum of two steps.
    pub fn plus(self, other: Vec2) -> (r: Vec2)
        requires
            i32::MIN <= self.x + other.x <= i32::MAX,
            i32::MIN <= self.y + other.y <= i32::MAX,
        ensures
            r.x == self.x + other.x,
            r.y == self.y + other.y,
    {
        Vec2 { x: self.x + other.x, y: self.y + other.y }
    }

    /// The difference of two steps.
    pub fn minus(self, other: Vec2) -> (r: Vec2)
        requires
            i32::MIN <= self.x - other.x <= i32::MAX,
            i32::MIN <= self.y - other.y <= i32::MAX,
        ensures
            r.x == self.x - other.x,
            r.y == self.y - other.y,
    {
        Vec2 { x: self.x - other.x, y: self.y - other.y }
    }

    /// The step taken `scalar` times.
    pub fn times(self, scalar: i32) -> (r: Vec2)
        requires
            i32::MIN <= self.x * scalar <= i32::MAX,
            i32::MIN <= self.y * scalar <= i32::MAX,
        ensures
            r.x == self.x * scalar,
            r.y == self.y * scalar,
    {
        Vec2 { x: self.x * scalar, y: self.y * scalar }
    }

    /// The step the other way.
    pub fn negated(self) -> (r: Vec2)
        requires
            self.x > i32::MIN,
            self.y > i32::MIN,
        ensures
            r.x == -self.x,
            r.y == -self.y,
    {
        Vec2 { x: -self.x, y: -self.y }
    }
}

impl Vec2u {
    /// The signed form.
    pub fn sign(self) -> (r: Vec2)
        requires
            self.x <= i32::MAX,
            self.y <= i32::MAX,
        ensures
            r.x == self.x,
            r.y == self.y,
    {
        Vec2 { x: self.x as i32, y: self.y as i32 }
    }
}

} // verus!
