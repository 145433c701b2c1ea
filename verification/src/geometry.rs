//! Integer grid geometry: cell vectors, entity identities, rotation and
//! dominant-axis directions.
use vstd::prelude::*;

verus! {

/// A grid cell or a cell offset. Game Y grows downward.
#[derive(Clone, Copy, Debug, PartialEq, Eq, Hash, Structural)]
pub struct IVec2 {
    pub x: i32,
    pub y: i32,
}

impl IVec2 {
    pub fn new(x: i32, y: i32) -> (r: IVec2)
        ensures
            r.x == x,
            r.y == y,
    {
        IVec2 { x, y }
    }

    pub fn zero() -> (r: IVec2)
        ensures
            r.x == 0,
            r.y == 0,
    {
        IVec2 { x: 0, y: 0 }
    }

    pub open spec fn is_zero(self) -> bool {
        self.x == 0 && self.y == 0
    }

    /// Whether the sum of both vectors fits in `i32` on each axis.
    pub open spec fn can_add(self, other: IVec2) -> bool {
        i32::MIN <= self.x + other.x <= i32::MAX && i32::MIN <= self.y + other.y <= i32::MAX
    }

    pub open spec fn spec_add(self, other: IVec2) -> IVec2 {
        IVec2 { x: (self.x + other.x) as i32, y: (self.y + other.y) as i32 }
    }

    pub fn add(self, other: IVec2) -> (r: IVec2)
        requires
            self.can_add(other),
        ensures
            r == self.spec_add(other),
    {
        IVec2 { x: self.x + other.x, y: self.y + other.y }
    }
}

/// Rotation of `v` into the frame of the cardinal direction `dir`
/// (`(1, 0)` flips the Y axis; a zero direction leaves `v` unchanged).
pub open spec fn spec_rotate(v: IVec2, dir: IVec2) -> IVec2 {
    if dir.is_zero() {
        v
    } else {
        IVec2 {
            x: (v.x * dir.x + v.y * dir.y) as i32,
            y: (-v.y * dir.x + v.x * dir.y) as i32,
        }
    }
}

/// A unit step along one axis.
pub open spec fn is_unit(dir: IVec2) -> bool {
    dir.x * dir.x + dir.y * dir.y == 1
}

/// Rotate `v` by the cardinal direction `dir`. Only zero and unit
/// directions are supported.
pub fn rotate(v: IVec2, dir: IVec2) -> (r: IVec2)
    requires
        dir.is_zero() || is_unit(dir),
        v.x > i32::MIN,
        v.y > i32::MIN,
    ensures
        r == spec_rotate(v, dir),
{
    if dir.x == 0 && dir.y == 0 {
        return v;
    }
    assert((dir.x == 0 && (dir.y == 1 || dir.y == -1)) || (dir.y == 0 && (dir.x == 1 || dir.x == -1)))
        by (nonlinear_arith)
        requires dir.x * dir.x + dir.y * dir.y == 1;
    let x = if dir.x == 0 {
        if dir.y == 1 { v.y } else { -v.y }
    } else {
        if dir.x == 1 { v.x } else { -v.x }
    };
    let y = if dir.x == 0 {
        if dir.y == 1 { v.x } else { -v.x }
    } else {
        if dir.x == 1 { -v.y } else { v.y }
    };
    IVec2 { x, y }
}

/// Dominant-axis direction name (`Still` for the zero vector). Positive Y (downward on screen) is named
/// `Up`, as the direction rule files are read top to bottom.
#[derive(Clone, Copy, Debug, PartialEq, Eq, Structural)]
pub enum Direction {
    Still,
    Right,
    Up,
    Left,
    Down,
}

pub open spec fn abs(v: int) -> int {
    if v < 0 { -v } else { v }
}

pub open spec fn spec_direction_of(v: IVec2) -> Direction {
    if v.is_zero() {
        Direction::Still
    } else if abs(v.x as int) > abs(v.y as int) {
        if v.x > 0 { Direction::Right } else { Direction::Left }
    } else if v.y > 0 {
        Direction::Up
    } else {
        Direction::Down
    }
}

impl Direction {
    pub fn of(v: IVec2) -> (r: Direction)
        ensures
            r == spec_direction_of(v),
    {
        if v.x == 0 && v.y == 0 {
            return Direction::Still;
        }
        let ax: i64 = if v.x < 0 { -(v.x as i64) } else { v.x as i64 };
        let ay: i64 = if v.y < 0 { -(v.y as i64) } else { v.y as i64 };
        if ax > ay {
            if v.x > 0 { Direction::Right } else { Direction::Left }
        } else if v.y > 0 {
            Direction::Up
        } else {
            Direction::Down
        }
    }

    pub open spec fn spec_index(self) -> nat {
        match self {
            Direction::Still => 0,
            Direction::Right => 1,
            Direction::Up => 2,
            Direction::Left => 3,
            Direction::Down => 4,
        }
    }

    pub fn index(self) -> (r: usize)
        ensures
            r == self.spec_index(),
            r < 5,
    {
        match self {
            Direction::Still => 0,
            Direction::Right => 1,
            Direction::Up => 2,
            Direction::Left => 3,
            Direction::Down => 4,
        }
    }
}

/// The checkerboard test `(x + y % 2) % 2 == 0` with Rust's truncating
/// remainder: a cell is a "hex" cell when `x` plus the truncated parity of
/// `y` is even.
pub open spec fn trunc_rem2(v: int) -> int {
    if v >= 0 { v % 2 } else { -((-v) % 2) }
}

pub open spec fn spec_is_hex_pos(p: IVec2) -> bool {
    trunc_rem2(p.x + trunc_rem2(p.y as int)) == 0
}

pub fn is_hex_pos(p: IVec2) -> (r: bool)
    requires
        p.x < i32::MAX,
        p.x > i32::MIN,
    ensures
        r == spec_is_hex_pos(p),
{
    let ry: i64 = if p.y >= 0 { (p.y as i64) % 2 } else { -((-(p.y as i64)) % 2) };
    let s: i64 = p.x as i64 + ry;
    let rs: i64 = if s >= 0 { s % 2 } else { -((-s) % 2) };
    rs == 0
}

/// Identity of a game entity: its slot index and the generation of the slot.
/// Claims are processed in ascending `(index, generation)` order, which is
/// creation order for live entities.
#[derive(Clone, Copy, Debug, PartialEq, Eq, Hash, Structural)]
pub struct EntityId {
    pub index: u32,
    pub generation: u32,
}

impl EntityId {
    pub open spec fn spec_precedes(self, other: EntityId) -> bool {
        self.index < other.index || (self.index == other.index && self.generation <= other.generation)
    }

    /// Whether `self` comes no later than `other` in creation order.
    pub fn precedes(&self, other: &EntityId) -> (r: bool)
        ensures
            r == self.spec_precedes(*other),
    {
        self.index < other.index || (self.index == other.index && self.generation <= other.generation)
    }
}

} // verus!
