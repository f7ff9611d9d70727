//! Segments between grid points and the cells on them.

use crate::dedupe::{
    dedupe, dedupe_seq, eq_is_identity, lemma_dedupe_first, lemma_dedupe_fixed,
    lemma_dedupe_last, lemma_dedupe_neighbours, lemma_dedupe_no_adjacent_repeat,
    lemma_no_adjacent_repeat_distinct, no_adjacent_repeat,
};
use crate::direction::{
    lemma_scaled_floor, lemma_scaled_floor_at_whole_length, lemma_scaled_floor_bounds,
    lemma_scaled_floor_monotone, lemma_scaled_floor_near_end, lemma_scaled_floor_on_axis,
    lemma_scaled_floor_unit_step, scaled_floor, scaled_trunc, scaled_trunc_of,
};
use crate::point::IPoint;
use crate::roots::{
    floor_sqrt, isqrt, lemma_floor_sqrt, lemma_floor_sqrt_of_square, lemma_square_monotone,
};
use vstd::prelude::*;
use vstd::std_specs::cmp::PartialEqSpecImpl;

verus! {

/// A segment of the grid, walked from `from` to `to`.
#[derive(Clone, Copy, Debug, Eq)]
pub struct ISegment {
    pub from: IPoint,
    pub to: IPoint,
}

impl PartialEq for ISegment {
    fn eq(&self, other: &ISegment) -> (r: bool) {
        self.from == other.from && self.to == other.to
    }
}

impl PartialEqSpecImpl for ISegment {
    open spec fn obeys_eq_spec() -> bool {
        true
    }

    open spec fn eq_spec(&self, other: &ISegment) -> bool {
        self.from == other.from && self.to == other.to
    }
}

/// The cells of the row of `from`, from `from` to the column `to_x`.
pub open spec fn horizontal_run(from: IPoint, to_x: int) -> Seq<IPoint> {
    if to_x >= from.x {
        Seq::new((to_x - from.x + 1) as nat, |i: int| IPoint { x: (from.x + i) as i32, y: from.y })
    } else {
        Seq::new((from.x - to_x + 1) as nat, |i: int| IPoint { x: (from.x - i) as i32, y: from.y })
    }
}

/// The cells of the column of `from`, from `from` to the row `to_y`.
pub open spec fn vertical_run(from: IPoint, to_y: int) -> Seq<IPoint> {
    if to_y >= from.y {
        Seq::new((to_y - from.y + 1) as nat, |i: int| IPoint { x: from.x, y: (from.y + i) as i32 })
    } else {
        Seq::new((from.y - to_y + 1) as nat, |i: int| IPoint { x: from.x, y: (from.y - i) as i32 })
    }
}

/// Whether each cell of `s` is the cell before it or one of its eight
/// neighbours.
pub open spec fn unit_steps(s: Seq<IPoint>) -> bool {
    forall|i: int|
        0 < i < s.len() ==> -1 <= (#[trigger] s[i]).x - s[i - 1].x <= 1 && -1 <= s[i].y - s[i
            - 1].y <= 1
}

/// A walk in steps of at most one cell passes at least as many distinct
/// cells in a row as its last cell is columns, or rows, from its first,
/// and one more.
pub proof fn lemma_unit_steps_length(s: Seq<IPoint>)
    requires
        unit_steps(s),
        s.len() > 0,
    ensures
        dedupe_seq(s).len() >= s.last().x - s[0].x + 1,
        dedupe_seq(s).len() >= s[0].x - s.last().x + 1,
        dedupe_seq(s).len() >= s.last().y - s[0].y + 1,
        dedupe_seq(s).len() >= s[0].y - s.last().y + 1,
    decreases s.len(),
{
    if s.len() > 1 {
        let init = s.drop_last();
        assert forall|i: int| 0 < i < init.len() implies -1 <= (#[trigger] init[i]).x - init[i
            - 1].x <= 1 && -1 <= init[i].y - init[i - 1].y <= 1 by {
            assert(init[i] == s[i] && init[i - 1] == s[i - 1]);
        }
        lemma_unit_steps_length(init);
        let n = s.len() - 1;
        assert(-1 <= s[n].x - s[n - 1].x <= 1 && -1 <= s[n].y - s[n - 1].y <= 1);
        assert(init.last() == s[n - 1]);
    }
}

impl ISegment {
    /// The segment from `from` to `to`.
    pub fn new(from: IPoint, to: IPoint) -> (seg: ISegment)
        ensures
            seg.from == from,
            seg.to == to,
    {
        ISegment { from, to }
    }

    /// The segment that starts at `origin` and ends `length` unit steps
    /// farther in the direction `heading`.
    pub fn from_heading(origin: IPoint, heading: IPoint, length: u32) -> (seg: ISegment)
        requires
            origin.can_step(heading, length as nat),
        ensures
            seg.from == origin,
            seg.to == origin.stepped(heading, length as nat),
    {
        ISegment { from: origin, to: origin.step_along(heading, length) }
    }

    /// Whether the vector from `from` to `to` is a point itself, each of
    /// its coordinates within `i32`.
    pub open spec fn spans(self) -> bool {
        self.to.can_sub(self.from)
    }

    /// The square of the Euclidean length.
    pub open spec fn norm2(self) -> nat {
        self.from.dist2(self.to)
    }

    /// The number of unit steps that fit on the segment: the integer part
    /// of its length.
    pub open spec fn steps(self) -> nat {
        floor_sqrt(self.norm2())
    }

    /// Whether the length is a whole number.
    pub open spec fn has_whole_length(self) -> bool {
        self.steps() * self.steps() == self.norm2()
    }

    /// The cell reached after `i` unit steps from `from` toward `to`: each
    /// coordinate of the way gone, cut off toward zero, added to `from`.
    pub open spec fn sample(self, i: nat) -> IPoint {
        IPoint {
            x: (self.from.x + scaled_trunc(i, self.to.x - self.from.x, self.norm2())) as i32,
            y: (self.from.y + scaled_trunc(i, self.to.y - self.from.y, self.norm2())) as i32,
        }
    }

    /// The cells reached after 0, 1, ... up to `steps()` unit steps.
    pub open spec fn samples(self) -> Seq<IPoint> {
        Seq::new(self.steps() + 1, |i: int| self.sample(i as nat))
    }

    /// The cells on the segment in the order of the walk, a cell that
    /// repeats the one just before it left out.
    pub open spec fn line_points(self) -> Seq<IPoint> {
        dedupe_seq(self.samples())
    }

    /// Every sample lies between the two ends, coordinate by coordinate.
    pub proof fn lemma_sample_between(self, i: nat)
        requires
            i <= self.steps(),
        ensures
            self.from.x <= self.to.x ==> self.from.x <= self.from.x + scaled_trunc(
                i,
                self.to.x - self.from.x,
                self.norm2(),
            ) <= self.to.x,
            self.from.x >= self.to.x ==> self.from.x >= self.from.x + scaled_trunc(
                i,
                self.to.x - self.from.x,
                self.norm2(),
            ) >= self.to.x,
            self.from.y <= self.to.y ==> self.from.y <= self.from.y + scaled_trunc(
                i,
                self.to.y - self.from.y,
                self.norm2(),
            ) <= self.to.y,
            self.from.y >= self.to.y ==> self.from.y >= self.from.y + scaled_trunc(
                i,
                self.to.y - self.from.y,
                self.norm2(),
            ) >= self.to.y,
    {
        let d2 = self.norm2();
        let dx = self.to.x - self.from.x;
        let dy = self.to.y - self.from.y;
        lemma_floor_sqrt(d2, 0);
        lemma_square_monotone(i, self.steps());
        let ax = if dx >= 0 {
            dx as nat
        } else {
            (-dx) as nat
        };
        let ay = if dy >= 0 {
            dy as nat
        } else {
            (-dy) as nat
        };
        lemma_scaled_floor_bounds(i, ax, d2);
        lemma_scaled_floor_bounds(i, ay, d2);
    }

    /// The walk starts at `from`.
    pub proof fn lemma_first_sample(self)
        ensures
            self.sample(0) == self.from,
    {
        let d2 = self.norm2();
        let dx = self.to.x - self.from.x;
        let dy = self.to.y - self.from.y;
        if d2 > 0 {
            let ax = if dx >= 0 {
                dx as nat
            } else {
                (-dx) as nat
            };
            let ay = if dy >= 0 {
                dy as nat
            } else {
                (-dy) as nat
            };
            assert(0nat * 0nat * d2 <= (0nat * ax) * (0nat * ax) < (0nat + 1) * (0nat + 1) * d2)
                by (nonlinear_arith)
                requires
                    d2 > 0,
            ;
            assert(0nat * 0nat * d2 <= (0nat * ay) * (0nat * ay) < (0nat + 1) * (0nat + 1) * d2)
                by (nonlinear_arith)
                requires
                    d2 > 0,
            ;
            lemma_scaled_floor(0, ax, d2, 0);
            lemma_scaled_floor(0, ay, d2, 0);
        }
    }

    /// Where the length is a whole number, the walk ends at `to`.
    pub proof fn lemma_last_sample(self)
        requires
            self.has_whole_length(),
        ensures
            self.sample(self.steps()) == self.to,
    {
        let d2 = self.norm2();
        let len = self.steps();
        let dx = self.to.x - self.from.x;
        let dy = self.to.y - self.from.y;
        if len > 0 {
            let ax = if dx >= 0 {
                dx as nat
            } else {
                (-dx) as nat
            };
            let ay = if dy >= 0 {
                dy as nat
            } else {
                (-dy) as nat
            };
            lemma_scaled_floor_at_whole_length(len, ax);
            lemma_scaled_floor_at_whole_length(len, ay);
        } else {
            assert(len * len == 0) by (nonlinear_arith)
                requires
                    len == 0,
            ;
            assert(dx * dx >= 0 && dy * dy >= 0) by (nonlinear_arith);
            assert(dx == 0 && dy == 0) by (nonlinear_arith)
                requires
                    dx * dx + dy * dy == 0,
            ;
        }
    }

    /// Each sample is the sample before it or one of its eight neighbours.
    pub proof fn lemma_samples_unit_steps(self)
        ensures
            unit_steps(self.samples()),
    {
        let s = self.samples();
        let d2 = self.norm2();
        let dx = self.to.x - self.from.x;
        let dy = self.to.y - self.from.y;
        let ax = if dx >= 0 {
            dx as nat
        } else {
            (-dx) as nat
        };
        let ay = if dy >= 0 {
            dy as nat
        } else {
            (-dy) as nat
        };
        assert(ax * ax <= d2 && ay * ay <= d2) by (nonlinear_arith)
            requires
                d2 == (dx * dx + dy * dy) as nat,
                ax == dx || ax == -dx,
                ay == dy || ay == -dy,
        ;
        assert forall|i: int| 0 < i < s.len() implies -1 <= (#[trigger] s[i]).x - s[i - 1].x <= 1
            && -1 <= s[i].y - s[i - 1].y <= 1 by {
            let before = (i - 1) as nat;
            self.lemma_sample_between(before);
            self.lemma_sample_between(i as nat);
            lemma_scaled_floor_monotone(before, ax, d2);
            lemma_scaled_floor_unit_step(before, ax, d2);
            lemma_scaled_floor_monotone(before, ay, d2);
            lemma_scaled_floor_unit_step(before, ay, d2);
            assert(s[i] == self.sample(i as nat));
            assert(s[i - 1] == self.sample(before));
        }
    }

    /// The walk ends at `to` or at one of its eight neighbours.
    pub proof fn lemma_last_sample_near(self)
        ensures
            -1 <= self.sample(self.steps()).x - self.to.x <= 1,
            -1 <= self.sample(self.steps()).y - self.to.y <= 1,
    {
        let d2 = self.norm2();
        let len = self.steps();
        let dx = self.to.x - self.from.x;
        let dy = self.to.y - self.from.y;
        let ax = if dx >= 0 {
            dx as nat
        } else {
            (-dx) as nat
        };
        let ay = if dy >= 0 {
            dy as nat
        } else {
            (-dy) as nat
        };
        assert(ax * ax <= d2 && ay * ay <= d2) by (nonlinear_arith)
            requires
                d2 == (dx * dx + dy * dy) as nat,
                ax == dx || ax == -dx,
                ay == dy || ay == -dy,
        ;
        lemma_floor_sqrt(d2, 0);
        lemma_scaled_floor_near_end(len, ax, d2);
        lemma_scaled_floor_near_end(len, ay, d2);
        self.lemma_sample_between(len);
    }

    /// Where the length is not a whole number, the walk stops short of
    /// `to`.
    pub proof fn lemma_last_sample_short(self)
        requires
            !self.has_whole_length(),
        ensures
            self.sample(self.steps()) != self.to,
    {
        let d2 = self.norm2();
        let len = self.steps();
        let dx = self.to.x - self.from.x;
        let dy = self.to.y - self.from.y;
        lemma_floor_sqrt(d2, 0);
        assert(len * len < d2);
        let ax = if dx >= 0 {
            dx as nat
        } else {
            (-dx) as nat
        };
        let ay = if dy >= 0 {
            dy as nat
        } else {
            (-dy) as nat
        };
        assert(d2 == ax * ax + ay * ay) by (nonlinear_arith)
            requires
                d2 == (dx * dx + dy * dy) as nat,
                ax == dx || ax == -dx,
                ay == dy || ay == -dy,
        ;
        let kx = scaled_floor(len, ax, d2);
        let ky = scaled_floor(len, ay, d2);
        lemma_scaled_floor(len, ax, d2, 0);
        lemma_scaled_floor(len, ay, d2, 0);
        if ax > 0 {
            assert(kx < ax) by (nonlinear_arith)
                requires
                    kx * kx * d2 <= (len * ax) * (len * ax),
                    len * len < d2,
                    ax > 0,
            ;
        } else {
            assert(ay > 0) by (nonlinear_arith)
                requires
                    d2 == ax * ax + ay * ay,
                    ax == 0,
                    d2 > 0,
            ;
            assert(ky < ay) by (nonlinear_arith)
                requires
                    ky * ky * d2 <= (len * ay) * (len * ay),
                    len * len < d2,
                    ay > 0,
            ;
        }
    }

    /// A horizontal segment passes every cell between its ends, one per
    /// step.
    pub proof fn lemma_horizontal(self)
        requires
            self.from.y == self.to.y,
        ensures
            self.has_whole_length(),
            self.line_points() == horizontal_run(self.from, self.to.x as int),
    {
        let dx = self.to.x - self.from.x;
        let ax = if dx >= 0 {
            dx as nat
        } else {
            (-dx) as nat
        };
        assert(self.norm2() == ax * ax) by (nonlinear_arith)
            requires
                self.norm2() == (dx * dx + (self.to.y - self.from.y) * (self.to.y - self.from.y)) as nat,
                self.to.y - self.from.y == 0,
                ax == dx || ax == -dx,
        ;
        lemma_floor_sqrt_of_square(ax);
        let run = horizontal_run(self.from, self.to.x as int);
        let s = self.samples();
        assert(s.len() == run.len());
        assert forall|i: int| 0 <= i < s.len() implies s[i] == run[i] by {
            if ax > 0 {
                lemma_scaled_floor_on_axis(i as nat, ax);
            }
        }
        assert(s =~= run);
        assert(no_adjacent_repeat(run));
        lemma_dedupe_fixed(run);
    }

    /// A vertical segment passes every cell between its ends, one per step.
    pub proof fn lemma_vertical(self)
        requires
            self.from.x == self.to.x,
        ensures
            self.has_whole_length(),
            self.line_points() == vertical_run(self.from, self.to.y as int),
    {
        let dy = self.to.y - self.from.y;
        let ay = if dy >= 0 {
            dy as nat
        } else {
            (-dy) as nat
        };
        assert(self.norm2() == ay * ay) by (nonlinear_arith)
            requires
                self.norm2() == ((self.to.x - self.from.x) * (self.to.x - self.from.x) + dy * dy) as nat,
                self.to.x - self.from.x == 0,
                ay == dy || ay == -dy,
        ;
        lemma_floor_sqrt_of_square(ay);
        let run = vertical_run(self.from, self.to.y as int);
        let s = self.samples();
        assert(s.len() == run.len());
        assert forall|i: int| 0 <= i < s.len() implies s[i] == run[i] by {
            if ay > 0 {
                lemma_scaled_floor_on_axis(i as nat, ay);
            }
        }
        assert(s =~= run);
        assert(no_adjacent_repeat(run));
        lemma_dedupe_fixed(run);
    }

    /// The cells of a segment start at `from` and hold no cell twice in a
    /// row: each is one of the eight neighbours of the cell before it. They
    /// end at `to` where the length is a whole number, and else at one of
    /// the eight neighbours of `to`. They are no fewer than the columns or
    /// the rows between the two ends, and no more than the unit steps that
    /// fit on the segment and one more.
    pub proof fn lemma_line_points(self)
        ensures
            1 <= self.line_points().len() <= self.steps() + 1,
            self.line_points().len() >= self.to.x - self.from.x,
            self.line_points().len() >= self.from.x - self.to.x,
            self.line_points().len() >= self.to.y - self.from.y,
            self.line_points().len() >= self.from.y - self.to.y,
            self.line_points()[0] == self.from,
            no_adjacent_repeat(self.line_points()),
            forall|i: int|
                0 < i < self.line_points().len() ==> self.line_points()[i - 1]
                    != #[trigger] self.line_points()[i],
            unit_steps(self.line_points()),
            self.has_whole_length() <==> self.line_points().last() == self.to,
            -1 <= self.line_points().last().x - self.to.x <= 1,
            -1 <= self.line_points().last().y - self.to.y <= 1,
    {
        let s = self.samples();
        let cells = self.line_points();
        assert(eq_is_identity::<IPoint>());
        lemma_dedupe_first(s);
        lemma_dedupe_last(s);
        lemma_dedupe_no_adjacent_repeat(s);
        self.lemma_first_sample();
        self.lemma_last_sample_near();
        if self.has_whole_length() {
            self.lemma_last_sample();
        } else {
            self.lemma_last_sample_short();
        }
        lemma_no_adjacent_repeat_distinct(cells);
        self.lemma_samples_unit_steps();
        lemma_unit_steps_length(s);
        assert forall|j: int| 0 < j < cells.len() implies -1 <= (#[trigger] cells[j]).x - cells[j
            - 1].x <= 1 && -1 <= cells[j].y - cells[j - 1].y <= 1 by {
            lemma_dedupe_neighbours(s, j);
            let i = choose|i: int|
                0 < i < s.len() && #[trigger] s[i] == cells[j] && s[i - 1] == cells[j - 1];
            assert(-1 <= s[i].x - s[i - 1].x <= 1 && -1 <= s[i].y - s[i - 1].y <= 1);
        }
    }

    /// Walks the segment in unit steps from `from` and lists the cells
    /// passed, without a cell that repeats the one listed just before it. A
    /// segment of length 0 gives its one cell.
    pub fn get_line_points(self) -> (cells: Vec<IPoint>)
        requires
            self.spans(),
        ensures
            cells@ == self.line_points(),
            1 <= cells@.len() <= self.steps() + 1,
            cells@.len() >= self.to.x - self.from.x,
            cells@.len() >= self.from.x - self.to.x,
            cells@.len() >= self.to.y - self.from.y,
            cells@.len() >= self.from.y - self.to.y,
            cells@[0] == self.from,
            forall|i: int| 0 < i < cells@.len() ==> cells@[i - 1] != #[trigger] cells@[i],
            unit_steps(cells@),
            self.has_whole_length() <==> cells@.last() == self.to,
            -1 <= cells@.last().x - self.to.x <= 1,
            -1 <= cells@.last().y - self.to.y <= 1,
    {
        let delta = self.to - self.from;
        let d2: u64 = delta.norm_squared();
        let steps: u32 = isqrt(d2);
        proof {
            lemma_floor_sqrt(d2 as nat, 0);
            if steps >= 0xffff_ffff {
                lemma_square_monotone(0xffff_ffff, steps as nat);
            }
        }
        let mut samples: Vec<IPoint> = Vec::new();
        let mut i: u32 = 0;
        while i <= steps
            invariant
                self.spans(),
                delta.x == self.to.x - self.from.x,
                delta.y == self.to.y - self.from.y,
                d2 == self.norm2(),
                delta.x * delta.x <= d2,
                delta.y * delta.y <= d2,
                steps == self.steps(),
                steps < 0xffff_ffff,
                i <= steps + 1,
                samples@.len() == i,
                forall|j: int| 0 <= j < i ==> samples@[j] == self.sample(j as nat),
            decreases steps + 1 - i,
        {
            let ox: i64 = scaled_trunc_of(i, delta.x, d2);
            let oy: i64 = scaled_trunc_of(i, delta.y, d2);
            proof {
                self.lemma_sample_between(i as nat);
            }
            let cell = IPoint::new((self.from.x as i64 + ox) as i32, (self.from.y as i64 + oy) as i32);
            samples.push(cell);
            i += 1;
        }
        proof {
            assert(samples@ =~= self.samples());
            self.lemma_line_points();
        }
        dedupe(&samples)
    }
}

} // verus!
