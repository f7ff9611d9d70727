//! Grid points and their vector arithmetic.

use crate::direction::{magnitude, scaled_trunc_of, step_x, step_y};
use crate::roots::{floor_sqrt, isqrt};
use std::ops::{Add, Sub};
use vstd::prelude::*;
use vstd::std_specs::cmp::PartialEqSpecImpl;
use vstd::std_specs::ops::{AddSpecImpl, SubSpecImpl};

verus! {

/// A cell of the character grid, or the difference of two cells.
#[derive(Clone, Copy, Debug, Eq)]
pub struct IPoint {
    pub x: i32,
    pub y: i32,
}

impl PartialEq for IPoint {
    fn eq(&self, other: &IPoint) -> (r: bool) {
        self.x == other.x && self.y == other.y
    }
}

impl PartialEqSpecImpl for IPoint {
    open spec fn obeys_eq_spec() -> bool {
        true
    }

    open spec fn eq_spec(&self, other: &IPoint) -> bool {
        self.x == other.x && self.y == other.y
    }
}

impl IPoint {
    /// The point with the given coordinates.
    pub fn new(x: i32, y: i32) -> (p: IPoint)
        ensures
            p.x == x,
            p.y == y,
    {
        IPoint { x, y }
    }

    /// Whether both coordinates of the sum with `other` fit in `i32`.
    pub open spec fn can_add(self, other: IPoint) -> bool {
        &&& i32::MIN <= self.x + other.x <= i32::MAX
        &&& i32::MIN <= self.y + other.y <= i32::MAX
    }

    /// Whether both coordinates of the difference with `other` fit in `i32`.
    pub open spec fn can_sub(self, other: IPoint) -> bool {
        &&& i32::MIN <= self.x - other.x <= i32::MAX
        &&& i32::MIN <= self.y - other.y <= i32::MAX
    }

    /// The square of the Euclidean length of the vector `self`.
    pub open spec fn norm2(self) -> nat {
        (self.x * self.x + self.y * self.y) as nat
    }

    /// Whether the cell reached after `s` unit steps from `self` in the
    /// direction `heading` has coordinates within `i32`.
    pub open spec fn can_step(self, heading: IPoint, s: nat) -> bool {
        &&& i32::MIN <= self.x + step_x(heading.x as int, heading.y as int, s) <= i32::MAX
        &&& i32::MIN <= self.y + step_y(heading.x as int, heading.y as int, s) <= i32::MAX
    }

    /// The cell reached after `s` unit steps from `self` in the direction
    /// `heading`, each coordinate of the way cut off toward zero.
    pub open spec fn stepped(self, heading: IPoint, s: nat) -> IPoint {
        IPoint {
            x: (self.x + step_x(heading.x as int, heading.y as int, s)) as i32,
            y: (self.y + step_y(heading.x as int, heading.y as int, s)) as i32,
        }
    }

    /// Computes the cell reached after `s` unit steps from `self` in the
    /// direction `heading`. A heading of `(0, 0)` leads nowhere.
    pub fn step_along(self, heading: IPoint, s: u32) -> (cell: IPoint)
        requires
            self.can_step(heading, s as nat),
        ensures
            cell == self.stepped(heading, s as nat),
    {
        let d2: u64 = heading.norm_squared();
        let ox: i64 = scaled_trunc_of(s, heading.x, d2);
        let oy: i64 = scaled_trunc_of(s, heading.y, d2);
        IPoint { x: (self.x as i64 + ox) as i32, y: (self.y as i64 + oy) as i32 }
    }

    /// The square of the Euclidean distance between `self` and `other`.
    pub open spec fn dist2(self, other: IPoint) -> nat {
        ((other.x - self.x) * (other.x - self.x) + (other.y - self.y) * (other.y - self.y)) as nat
    }

    /// Computes the square of the Euclidean length of the vector `self`.
    pub fn norm_squared(self) -> (n: u64)
        ensures
            n == self.norm2(),
            self.x * self.x <= n,
            self.y * self.y <= n,
            n <= 0x8000_0000_0000_0000,
    {
        let ax: u64 = magnitude(self.x) as u64;
        let ay: u64 = magnitude(self.y) as u64;
        assert(ax * ax == self.x * self.x && ax * ax <= 0x8000_0000 * 0x8000_0000) by (nonlinear_arith)
            requires
                ax == self.x || ax == -self.x,
                ax <= 0x8000_0000,
        ;
        assert(ay * ay == self.y * self.y && ay * ay <= 0x8000_0000 * 0x8000_0000) by (nonlinear_arith)
            requires
                ay == self.y || ay == -self.y,
                ay <= 0x8000_0000,
        ;
        ax * ax + ay * ay
    }

    /// Computes the square of the Euclidean distance between `self` and
    /// `other`, two points whose difference is a point itself.
    pub fn dist_squared(&self, other: &IPoint) -> (n: u64)
        requires
            other.can_sub(*self),
        ensures
            n == self.dist2(*other),
    {
        let d = *other - *self;
        d.norm_squared()
    }

    /// Computes the integer part of the Euclidean distance between `self`
    /// and `other`, two points whose difference is a point itself.
    pub fn dist_floor(&self, other: &IPoint) -> (d: u32)
        requires
            other.can_sub(*self),
        ensures
            d == floor_sqrt(self.dist2(*other)),
    {
        isqrt(self.dist_squared(other))
    }
}

impl Add for IPoint {
    type Output = IPoint;

    fn add(self, other: IPoint) -> (sum: IPoint) {
        IPoint { x: self.x + other.x, y: self.y + other.y }
    }
}

impl AddSpecImpl for IPoint {
    open spec fn obeys_add_spec() -> bool {
        true
    }

    open spec fn add_req(self, other: IPoint) -> bool {
        self.can_add(other)
    }

    open spec fn add_spec(self, other: IPoint) -> IPoint {
        IPoint { x: (self.x + other.x) as i32, y: (self.y + other.y) as i32 }
    }
}

impl Sub for IPoint {
    type Output = IPoint;

    fn sub(self, other: IPoint) -> (diff: IPoint) {
        IPoint { x: self.x - other.x, y: self.y - other.y }
    }
}

impl SubSpecImpl for IPoint {
    open spec fn obeys_sub_spec() -> bool {
        true
    }

    open spec fn sub_req(self, other: IPoint) -> bool {
        self.can_sub(other)
    }

    open spec fn sub_spec(self, other: IPoint) -> IPoint {
        IPoint { x: (self.x - other.x) as i32, y: (self.y - other.y) as i32 }
    }
}

} // verus!
