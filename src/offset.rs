use vstd::prelude::*;

verus! {

/// A displacement, or a position, on the grid. `y` grows downwards.
#[derive(Clone, Copy, Debug, PartialEq, Eq, Structural)]
pub struct Offset {
    pub x: i32,
    pub y: i32,
}

pub open spec fn sign(v: int) -> int {
    if v > 0 {
        1
    } else if v < 0 {
        -1
    } else {
        0
    }
}

pub open spec fn abs(v: int) -> int {
    if v < 0 {
        -v
    } else {
        v
    }
}

/// The two points lie on one horizontal, vertical or 45-degree line.
pub open spec fn is_straight(a: Offset, b: Offset) -> bool {
    let dx = b.x - a.x;
    let dy = b.y - a.y;
    dx == 0 || dy == 0 || abs(dx) == abs(dy)
}

/// Number of unit steps from `a` to `b` along a straight line.
pub open spec fn line_steps(a: Offset, b: Offset) -> int {
    let dx = abs(b.x - a.x);
    let dy = abs(b.y - a.y);
    if dx >= dy {
        dx
    } else {
        dy
    }
}

/// The `s`-th point of the walk from `a` towards `b`.
pub open spec fn line_point(a: Offset, b: Offset, s: int) -> Offset {
    Offset {
        x: (a.x + s * sign(b.x - a.x)) as i32,
        y: (a.y + s * sign(b.y - a.y)) as i32,
    }
}

/// Every cell from `a` to `b`, both included, or nothing when the two
/// points are not on a straight line.
pub open spec fn line(a: Offset, b: Offset) -> Seq<Offset> {
    if is_straight(a, b) {
        Seq::new((line_steps(a, b) + 1) as nat, |s: int| line_point(a, b, s))
    } else {
        Seq::empty()
    }
}

/// Integer sign of an `i32`, as an `i32`.
fn signum(v: i32) -> (r: i32)
    ensures
        r == sign(v as int),
{
    if v > 0 {
        1
    } else if v < 0 {
        -1
    } else {
        0
    }
}

/// `base + s * dir` for a direction in {-1, 0, 1}, when the result lies
/// between `base` and `end`.
fn walk_coord(base: i32, end: i32, s: i64) -> (r: i32)
    requires
        0 <= s <= abs(end - base),
    ensures
        r == base + s * sign(end - base),
{
    if end > base {
        (base as i64 + s) as i32
    } else if end < base {
        (base as i64 - s) as i32
    } else {
        base
    }
}

impl Offset {
    pub open spec fn new_spec(x: i32, y: i32) -> Offset {
        Offset { x, y }
    }

    pub fn new(x: i32, y: i32) -> (r: Offset)
        ensures
            r == Offset::new_spec(x, y),
    {
        Offset { x, y }
    }

    pub fn zero() -> (r: Offset)
        ensures
            r.x == 0,
            r.y == 0,
    {
        Offset { x: 0, y: 0 }
    }

    pub open spec fn is_zero_spec(&self) -> bool {
        self.x == 0 && self.y == 0
    }

    #[verifier::when_used_as_spec(is_zero_spec)]
    pub fn is_zero(&self) -> (r: bool)
        ensures
            r == self.is_zero_spec(),
    {
        self.x == 0 && self.y == 0
    }

    /// Returns all offsets from `self` to `other`, both included.
    /// Returns nothing when the two are not on a horizontal, vertical or
    /// diagonal line.
    pub fn between(&self, other: &Offset) -> (r: Vec<Offset>)
        ensures
            r@ == line(*self, *other),
    {
        let dx: i64 = other.x as i64 - self.x as i64;
        let dy: i64 = other.y as i64 - self.y as i64;
        let adx: i64 = if dx < 0 {
            -dx
        } else {
            dx
        };
        let ady: i64 = if dy < 0 {
            -dy
        } else {
            dy
        };
        if !(adx == ady || dx == 0 || dy == 0) {
            return Vec::new();
        }
        let steps: i64 = if adx >= ady {
            adx
        } else {
            ady
        };
        let ghost a = *self;
        let ghost b = *other;
        let mut r: Vec<Offset> = Vec::new();
        let mut s: i64 = 0;
        while s <= steps
            invariant
                a == *self,
                b == *other,
                is_straight(a, b),
                steps == line_steps(a, b),
                adx == abs(b.x - a.x),
                ady == abs(b.y - a.y),
                0 <= steps <= 0x1_0000_0000,
                0 <= s <= steps + 1,
                r@ =~= Seq::new(s as nat, |k: int| line_point(a, b, k)),
            decreases steps + 1 - s,
        {
            let x = if adx == 0 {
                self.x
            } else {
                walk_coord(self.x, other.x, s)
            };
            let y = if ady == 0 {
                self.y
            } else {
                walk_coord(self.y, other.y, s)
            };
            r.push(Offset { x, y });
            s = s + 1;
        }
        r
    }

    /// The offset with each axis scaled to a magnitude of at most 1.
    pub fn unit(&self) -> (r: Offset)
        ensures
            r.x == sign(self.x as int),
            r.y == sign(self.y as int),
    {
        Offset { x: signum(self.x), y: signum(self.y) }
    }

    /// True if the offset points down (towards larger `y`).
    pub fn is_down(&self) -> (r: bool)
        ensures
            r == (self.y > 0),
    {
        self.y > 0
    }

    /// True if the offset points right (towards larger `x`).
    pub fn is_right(&self) -> (r: bool)
        ensures
            r == (self.x > 0),
    {
        self.x > 0
    }

    pub open spec fn plus(self, o: Offset) -> Offset {
        Offset { x: (self.x + o.x) as i32, y: (self.y + o.y) as i32 }
    }

    pub fn add(self, rhs: Offset) -> (r: Offset)
        requires
            i32::MIN <= self.x + rhs.x <= i32::MAX,
            i32::MIN <= self.y + rhs.y <= i32::MAX,
        ensures
            r == self.plus(rhs),
    {
        Offset { x: self.x + rhs.x, y: self.y + rhs.y }
    }

    pub fn sub(self, rhs: Offset) -> (r: Offset)
        requires
            i32::MIN <= self.x - rhs.x <= i32::MAX,
            i32::MIN <= self.y - rhs.y <= i32::MAX,
        ensures
            r.x == self.x - rhs.x,
            r.y == self.y - rhs.y,
    {
        Offset { x: self.x - rhs.x, y: self.y - rhs.y }
    }

    pub fn mul(self, rhs: i32) -> (r: Offset)
        requires
            i32::MIN <= self.x * rhs <= i32::MAX,
            i32::MIN <= self.y * rhs <= i32::MAX,
        ensures
            r.x == self.x * rhs,
            r.y == self.y * rhs,
    {
        Offset { x: self.x * rhs, y: self.y * rhs }
    }
}

} // verus!
