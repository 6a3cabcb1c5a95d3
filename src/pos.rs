//! Cell positions, chunk coordinates and facing directions.

use vstd::prelude::*;

verus! {

/// A cell position in the block grid.
#[derive(Clone, Copy, Debug, PartialEq, Eq, Structural)]
pub struct BlockPos {
    pub x: i32,
    pub y: i32,
    pub z: i32,
}

/// A position as a mathematical triple.
pub type Coord = (int, int, int);

pub open spec fn coord_min(a: int, b: int) -> int {
    if a <= b { a } else { b }
}

pub open spec fn coord_max(a: int, b: int) -> int {
    if a <= b { b } else { a }
}

impl BlockPos {
    pub open spec fn at(self) -> Coord {
        (self.x as int, self.y as int, self.z as int)
    }

    pub fn new(x: i32, y: i32, z: i32) -> (r: BlockPos)
        ensures
            r == (BlockPos { x, y, z }),
    {
        BlockPos { x, y, z }
    }

    /// The component-wise minimum of two positions.
    pub fn min(self, other: BlockPos) -> (r: BlockPos)
        ensures
            r.x == coord_min(self.x as int, other.x as int),
            r.y == coord_min(self.y as int, other.y as int),
            r.z == coord_min(self.z as int, other.z as int),
    {
        BlockPos {
            x: if self.x <= other.x { self.x } else { other.x },
            y: if self.y <= other.y { self.y } else { other.y },
            z: if self.z <= other.z { self.z } else { other.z },
        }
    }

    /// The component-wise maximum of two positions.
    pub fn max(self, other: BlockPos) -> (r: BlockPos)
        ensures
            r.x == coord_max(self.x as int, other.x as int),
            r.y == coord_max(self.y as int, other.y as int),
            r.z == coord_max(self.z as int, other.z as int),
    {
        BlockPos {
            x: if self.x <= other.x { other.x } else { self.x },
            y: if self.y <= other.y { other.y } else { self.y },
            z: if self.z <= other.z { other.z } else { self.z },
        }
    }
}

pub open spec fn fits_i32(v: int) -> bool {
    i32::MIN <= v <= i32::MAX
}

pub open spec fn fits_pos(c: Coord) -> bool {
    fits_i32(c.0) && fits_i32(c.1) && fits_i32(c.2)
}

/// The chunk column coordinate of a block coordinate (16 cells per chunk).
pub open spec fn chunk_of(v: int) -> int {
    v / 16
}

pub fn chunk_coord(v: i32) -> (r: i32)
    ensures
        r as int == chunk_of(v as int),
{
    let shifted: i64 = v as i64 + 2147483648;
    let q: i64 = shifted / 16;
    proof {
        let q0 = (v as int) / 16;
        let r0 = (v as int) % 16;
        assert(v as int == q0 * 16 + r0) by (nonlinear_arith)
            requires
                q0 == (v as int) / 16,
                r0 == (v as int) % 16,
        ;
        vstd::arithmetic::div_mod::lemma_fundamental_div_mod_converse(
            shifted as int,
            16,
            q0 + 134217728,
            r0,
        );
    }
    (q - 134217728) as i32
}

/// The six axis directions a user can face.
#[derive(Clone, Copy, Debug, PartialEq, Eq, Structural)]
pub enum BlockFacing {
    North,
    South,
    East,
    West,
    Up,
    Down,
}

impl BlockFacing {
    /// The unit vector of the direction.
    pub open spec fn delta(self) -> Coord {
        match self {
            BlockFacing::North => (0, 0, -1),
            BlockFacing::South => (0, 0, 1),
            BlockFacing::East => (1, 0, 0),
            BlockFacing::West => (-1, 0, 0),
            BlockFacing::Up => (0, 1, 0),
            BlockFacing::Down => (0, -1, 0),
        }
    }

    pub open spec fn offset_spec(self, p: Coord, n: int) -> Coord {
        (p.0 + self.delta().0 * n, p.1 + self.delta().1 * n, p.2 + self.delta().2 * n)
    }

    /// `pos` moved `n` cells along this direction; `None` where a coordinate
    /// would leave the `i32` range.
    pub fn offset_pos(self, pos: BlockPos, n: i32) -> (r: Option<BlockPos>)
        ensures
            fits_pos(self.offset_spec(pos.at(), n as int)) ==> r.is_some() && r.unwrap().at()
                == self.offset_spec(pos.at(), n as int),
            !fits_pos(self.offset_spec(pos.at(), n as int)) ==> r.is_none(),
    {
        let (dx, dy, dz): (i64, i64, i64) = match self {
            BlockFacing::North => (0, 0, -1),
            BlockFacing::South => (0, 0, 1),
            BlockFacing::East => (1, 0, 0),
            BlockFacing::West => (-1, 0, 0),
            BlockFacing::Up => (0, 1, 0),
            BlockFacing::Down => (0, -1, 0),
        };
        let x = pos.x as i64 + dx * (n as i64);
        let y = pos.y as i64 + dy * (n as i64);
        let z = pos.z as i64 + dz * (n as i64);
        if x < i32::MIN as i64 || x > i32::MAX as i64 || y < i32::MIN as i64 || y > i32::MAX as i64
            || z < i32::MIN as i64 || z > i32::MAX as i64 {
            None
        } else {
            Some(BlockPos { x: x as i32, y: y as i32, z: z as i32 })
        }
    }
}

} // verus!
