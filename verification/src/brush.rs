//! The brush: what it covers around one point of its path.

use crate::direction::{lemma_steps_mirror, lemma_steps_within, step_x, step_y};
use crate::point::IPoint;
use crate::segment::ISegment;
use vstd::prelude::*;
use vstd::std_specs::cmp::PartialEqSpecImpl;

verus! {

/// A point of the path with the direction in which the brush lies there.
/// The direction is a vector; only where it points counts, not how long it
/// is.
#[derive(Clone, Copy, Debug, Eq)]
pub struct OrientedPoint {
    pub position: IPoint,
    pub heading: IPoint,
}

impl PartialEq for OrientedPoint {
    fn eq(&self, other: &OrientedPoint) -> (r: bool) {
        self.position == other.position && self.heading == other.heading
    }
}

impl PartialEqSpecImpl for OrientedPoint {
    open spec fn obeys_eq_spec() -> bool {
        true
    }

    open spec fn eq_spec(&self, other: &OrientedPoint) -> bool {
        self.position == other.position && self.heading == other.heading
    }
}

/// The brush's measures: its width in cells, and the factor by which its
/// reach along the heading is stretched.
#[derive(Clone, Copy, Debug, PartialEq, Eq, Structural)]
pub struct Brush {
    pub width: u16,
    pub deformation: u16,
}

impl Brush {
    /// Whether both measures are at least 1.
    pub open spec fn wf(self) -> bool {
        self.width >= 1 && self.deformation >= 1
    }

    /// The brush with the given measures, if both are at least 1.
    pub fn new(width: u16, deformation: u16) -> (brush: Option<Brush>)
        ensures
            brush == if width >= 1 && deformation >= 1 {
                Some(Brush { width, deformation })
            } else {
                None
            },
    {
        if width >= 1 && deformation >= 1 {
            Some(Brush { width, deformation })
        } else {
            None
        }
    }

    /// The number of steps that the brush reaches to each side: half the
    /// width, times the deformation.
    pub open spec fn reach(self) -> nat {
        ((self.width / 2) * self.deformation) as nat
    }

    /// Computes the number of steps that the brush reaches to each side.
    pub fn half_steps(&self) -> (n: u32)
        ensures
            n == self.reach(),
            n <= 0x7fff * 0xffff,
    {
        let half: u32 = (self.width / 2) as u32;
        assert(half * self.deformation <= 0x7fff * 0xffff) by (nonlinear_arith)
            requires
                half <= 0x7fff,
                self.deformation <= 0xffff,
        ;
        half * (self.deformation as u32)
    }

    /// Whether every cell within the brush's reach of `center`, along
    /// either axis, has coordinates within `i32`.
    pub open spec fn fits_around(self, center: IPoint) -> bool {
        self.reach() > 0 ==> {
            &&& i32::MIN <= center.x - (self.reach() - 1)
            &&& center.x + (self.reach() - 1) <= i32::MAX
            &&& i32::MIN <= center.y - (self.reach() - 1)
            &&& center.y + (self.reach() - 1) <= i32::MAX
        }
    }

    /// The cell that the brush covers `s` steps from `center` along the
    /// heading.
    pub open spec fn ahead(center: IPoint, heading: IPoint, s: nat) -> IPoint {
        IPoint {
            x: (center.x + step_x(heading.x as int, heading.y as int, s)) as i32,
            y: (center.y + step_y(heading.x as int, heading.y as int, s)) as i32,
        }
    }

    /// The cell that the brush covers `s` steps from `center` against the
    /// heading: along the heading turned by half a turn.
    pub open spec fn behind(center: IPoint, heading: IPoint, s: nat) -> IPoint {
        IPoint {
            x: (center.x + step_x(-(heading.x as int), -(heading.y as int), s)) as i32,
            y: (center.y + step_y(-(heading.x as int), -(heading.y as int), s)) as i32,
        }
    }

    /// What the brush covers at `at`: for each step count below its reach,
    /// from 0 up, the cell that many steps along the heading and then the
    /// cell that many steps against it.
    pub open spec fn footprint_spec(self, at: OrientedPoint) -> Seq<IPoint> {
        Seq::new(
            2 * self.reach(),
            |j: int|
                if j % 2 == 0 {
                    Brush::ahead(at.position, at.heading, (j / 2) as nat)
                } else {
                    Brush::behind(at.position, at.heading, (j / 2) as nat)
                },
        )
    }

    /// The footprint is symmetric about its centre: for each step count
    /// `s` below the reach it holds the cell `s` steps along the heading
    /// and, just after it, the cell `s` steps against the heading, which
    /// lies as far from the centre in the opposite direction.
    pub proof fn lemma_footprint_symmetric(self, at: OrientedPoint, s: int)
        requires
            self.fits_around(at.position),
            0 <= s < self.reach(),
        ensures
            self.footprint_spec(at)[2 * s] == Brush::ahead(at.position, at.heading, s as nat),
            self.footprint_spec(at)[2 * s + 1] == Brush::behind(at.position, at.heading, s as nat),
            Brush::behind(at.position, at.heading, s as nat).x - at.position.x == -(Brush::ahead(
                at.position,
                at.heading,
                s as nat,
            ).x - at.position.x),
            Brush::behind(at.position, at.heading, s as nat).y - at.position.y == -(Brush::ahead(
                at.position,
                at.heading,
                s as nat,
            ).y - at.position.y),
    {
        lemma_steps_mirror(at.heading.x as int, at.heading.y as int, s as nat);
        lemma_steps_within(at.heading.x as int, at.heading.y as int, s as nat);
    }

    /// Every cell of the footprint has its mirror image about the centre
    /// in the footprint, as its neighbour in the list.
    pub proof fn lemma_footprint_mirror(self, at: OrientedPoint, j: int)
        requires
            self.fits_around(at.position),
            0 <= j < self.footprint_spec(at).len(),
        ensures
            ({
                let k = if j % 2 == 0 {
                    j + 1
                } else {
                    j - 1
                };
                &&& 0 <= k < self.footprint_spec(at).len()
                &&& self.footprint_spec(at)[k].x - at.position.x == -(self.footprint_spec(at)[j].x
                    - at.position.x)
                &&& self.footprint_spec(at)[k].y - at.position.y == -(self.footprint_spec(at)[j].y
                    - at.position.y)
            }),
    {
        self.lemma_footprint_symmetric(at, j / 2);
    }

    /// Lists the cells that the brush covers at `at`.
    pub fn footprint(&self, at: OrientedPoint) -> (cells: Vec<IPoint>)
        requires
            self.fits_around(at.position),
        ensures
            cells@ == self.footprint_spec(at),
            cells@.len() == 2 * self.reach(),
            forall|s: int|
                0 <= s < self.reach() ==> (#[trigger] cells@[2 * s + 1]).x - at.position.x == -(
                cells@[2 * s].x - at.position.x) && cells@[2 * s + 1].y - at.position.y == -(
                cells@[2 * s].y - at.position.y),
    {
        let reach: u32 = self.half_steps();
        let mut cells: Vec<IPoint> = Vec::new();
        let mut s: u32 = 0;
        while s < reach
            invariant
                self.fits_around(at.position),
                reach == self.reach(),
                s <= reach,
                cells@.len() == 2 * s,
                forall|j: int| 0 <= j < 2 * s ==> cells@[j] == self.footprint_spec(at)[j],
            decreases reach - s,
        {
            proof {
                lemma_steps_mirror(at.heading.x as int, at.heading.y as int, s as nat);
                lemma_steps_within(at.heading.x as int, at.heading.y as int, s as nat);
            }
            let ahead = at.position.step_along(at.heading, s);
            let dx: i64 = ahead.x as i64 - at.position.x as i64;
            let dy: i64 = ahead.y as i64 - at.position.y as i64;
            let behind = IPoint {
                x: (at.position.x as i64 - dx) as i32,
                y: (at.position.y as i64 - dy) as i32,
            };
            cells.push(ahead);
            cells.push(behind);
            s += 1;
        }
        proof {
            assert(cells@ =~= self.footprint_spec(at));
            assert forall|s: int| 0 <= s < self.reach() implies (#[trigger] cells@[2 * s + 1]).x
                - at.position.x == -(cells@[2 * s].x - at.position.x) && cells@[2 * s + 1].y
                - at.position.y == -(cells@[2 * s].y - at.position.y) by {
                self.lemma_footprint_symmetric(at, s);
            }
        }
        cells
    }

    /// The stroke that the brush draws from `at`: as long as the brush is
    /// wide, along the heading.
    pub fn stroke(&self, at: OrientedPoint) -> (seg: ISegment)
        requires
            at.position.can_step(at.heading, self.width as nat),
        ensures
            seg.from == at.position,
            seg.to == at.position.stepped(at.heading, self.width as nat),
    {
        ISegment::from_heading(at.position, at.heading, self.width as u32)
    }
}

} // verus!
