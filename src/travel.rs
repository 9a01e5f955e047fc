use vstd::prelude::*;
use crate::coords::{TileCoords, shifted};

verus! {

/// The axis a travel runs along.
#[derive(Clone, Copy, PartialEq, Eq, Structural, Debug)]
pub enum Direction {
    X,
    Y,
}

/// A single-axis, signed displacement.
#[derive(Clone, Copy, PartialEq, Eq, Structural, Debug)]
pub struct Travel {
    pub direction: Direction,
    pub amount: i32,
}

/// The sign of an integer.
pub open spec fn sign(a: int) -> int {
    if a > 0 {
        1
    } else if a < 0 {
        -1
    } else {
        0
    }
}

/// The absolute value of an integer.
pub open spec fn abs(a: int) -> nat {
    if a < 0 {
        (-a) as nat
    } else {
        a as nat
    }
}

/// The cell `k` tiles from `origin` along the travel's axis.
pub open spec fn along(origin: TileCoords, t: Travel, k: int) -> TileCoords {
    match t.direction {
        Direction::X => shifted(origin, k, 0),
        Direction::Y => shifted(origin, 0, k),
    }
}

/// The cells a travel passes from `origin`, in order: the origin excluded,
/// the destination included, one cell per unit of magnitude.
pub open spec fn route(origin: TileCoords, t: Travel) -> Seq<TileCoords> {
    Seq::new(abs(t.amount as int), |k: int| along(origin, t, sign(t.amount as int) * (k + 1)))
}

/// The cell a travel ends on.
pub open spec fn destination(origin: TileCoords, t: Travel) -> TileCoords {
    along(origin, t, t.amount as int)
}

/// Whether the destination of the travel, and so every cell of its route, has
/// coordinates that fit in an `i32`.
pub open spec fn route_fits(origin: TileCoords, t: Travel) -> bool {
    match t.direction {
        Direction::X => i32::MIN <= origin.x + t.amount <= i32::MAX,
        Direction::Y => i32::MIN <= origin.y + t.amount <= i32::MAX,
    }
}

impl Travel {
    /// A unit-or-zero travel along one axis.
    pub open spec fn is_step(&self) -> bool {
        -1 <= self.amount <= 1
    }

    /// The displacement as an (x, y) pair.
    pub fn into_ivec2(&self) -> (r: (i32, i32))
        ensures
            r.0 == (match self.direction {
                Direction::X => self.amount,
                Direction::Y => 0,
            }),
            r.1 == (match self.direction {
                Direction::X => 0,
                Direction::Y => self.amount,
            }),
    {
        match self.direction {
            Direction::X => (self.amount, 0),
            Direction::Y => (0, self.amount),
        }
    }

    /// The cells passed when travelling from `origin`.
    pub fn get_route(&self, origin: TileCoords) -> (r: Vec<TileCoords>)
        requires
            route_fits(origin, *self),
        ensures
            r@ == route(origin, *self),
    {
        let sign: i64 = if self.amount > 0 {
            1
        } else if self.amount < 0 {
            -1
        } else {
            0
        };
        let n: i64 = if self.amount < 0 {
            -(self.amount as i64)
        } else {
            self.amount as i64
        };
        let mut r: Vec<TileCoords> = Vec::new();
        let mut i: i64 = 1;
        while i <= n
            invariant
                1 <= i <= n + 1,
                n == abs(self.amount as int),
                sign == crate::travel::sign(self.amount as int),
                route_fits(origin, *self),
                r@.len() == i - 1,
                forall|k: int| 0 <= k < i - 1 ==> r@[k] == route(origin, *self)[k],
            decreases n + 1 - i,
        {
            let d: i64 = sign * i;
            let c = match self.direction {
                Direction::X => TileCoords { x: (origin.x as i64 + d) as i32, y: origin.y },
                Direction::Y => TileCoords { x: origin.x, y: (origin.y as i64 + d) as i32 },
            };
            r.push(c);
            i = i + 1;
        }
        assert(r@ =~= route(origin, *self));
        r
    }
}

/// The travel that the held direction keys ask for: up, then down, then left,
/// then right takes precedence; none held asks for no travel.
pub fn player_input(up: bool, down: bool, left: bool, right: bool) -> (r: Travel)
    ensures
        r == (if up {
            Travel { direction: Direction::Y, amount: 1 }
        } else if down {
            Travel { direction: Direction::Y, amount: -1i32 }
        } else if left {
            Travel { direction: Direction::X, amount: -1i32 }
        } else if right {
            Travel { direction: Direction::X, amount: 1 }
        } else {
            Travel { direction: Direction::X, amount: 0 }
        }),
{
    if up {
        Travel { direction: Direction::Y, amount: 1 }
    } else if down {
        Travel { direction: Direction::Y, amount: -1 }
    } else if left {
        Travel { direction: Direction::X, amount: -1 }
    } else if right {
        Travel { direction: Direction::X, amount: 1 }
    } else {
        Travel { direction: Direction::X, amount: 0 }
    }
}

} // verus!
