//! The scan path: horizontal passes that cover the canvas from top to
//! bottom, two strokes to a pass, joined by half-circle turns; and the
//! border trace, a closed loop round the canvas with rounded corners.

use crate::brush::{Brush, OrientedPoint};
use crate::canvas::Canvas;
use crate::point::IPoint;
use crate::segment::ISegment;
use vstd::prelude::*;

verus! {

/// Why no path could be laid out.
#[derive(Clone, Copy, Debug, PartialEq, Eq, Structural)]
pub enum PathError {
    /// The canvas is too low for one pass of the brush.
    UnsupportedCanvasSize,
}

/// The angle between two neighbouring points of a turn, in degrees.
pub const TURN_STEP_DEGREES: u16 = 5;

/// An arc of a circle that joins the ends of two strokes. Angles are in
/// degrees and grow from the direction of the larger columns toward the
/// direction of the larger rows. The arc starts at the angle `start` and
/// runs through `sweep` degrees, toward larger angles where `sweep` is
/// above 0 and toward smaller where it is below.
#[derive(Clone, Copy, Debug, PartialEq, Eq)]
pub struct Turn {
    pub center: IPoint,
    pub radius: u16,
    pub start: i16,
    pub sweep: i16,
}

/// A leg of the scan path.
#[derive(Clone, Copy, Debug, PartialEq, Eq)]
pub enum ScanLeg {
    /// A straight stroke.
    Line(ISegment),
    /// A turn from one stroke to the next.
    Turn(Turn),
}

/// The number of passes on a canvas of `rows` rows for a brush of width
/// `width`: the integer part of `(rows - 1.5 * width) / width`, rounded
/// down, and one more.
pub open spec fn pass_count(rows: int, width: int) -> int {
    (2 * rows - 3 * width) / (2 * width) + 1
}

/// Whether the canvas is high enough for one pass: at least one and a half
/// widths of the brush.
pub open spec fn supports(canvas: Canvas, brush: Brush) -> bool {
    2 * canvas.rows >= 3 * brush.width
}

/// The distance that the strokes keep from the left and the right edge.
pub open spec fn margin(brush: Brush) -> int {
    (brush.width / 2) * brush.deformation
}

/// The row of the upper stroke of the pass `i`.
pub open spec fn level(brush: Brush, i: int) -> int {
    brush.width / 2 + i * brush.width
}

/// The upper stroke of the pass `i`: from the left margin to the right.
pub open spec fn upper_stroke(canvas: Canvas, brush: Brush, i: int) -> ISegment {
    ISegment {
        from: IPoint { x: margin(brush) as i32, y: level(brush, i) as i32 },
        to: IPoint { x: (canvas.cols - 1 - margin(brush)) as i32, y: level(brush, i) as i32 },
    }
}

/// The lower stroke of the pass `i`: one width of the brush below the
/// upper one, from the right margin to the left.
pub open spec fn lower_stroke(canvas: Canvas, brush: Brush, i: int) -> ISegment {
    ISegment {
        from: IPoint {
            x: (canvas.cols - 1 - margin(brush)) as i32,
            y: (level(brush, i) + brush.width) as i32,
        },
        to: IPoint { x: margin(brush) as i32, y: (level(brush, i) + brush.width) as i32 },
    }
}

/// The half-circle about `center` from straight above it to straight
/// below it. A turn to the right bulges toward the larger columns, a turn
/// to the left toward the smaller.
pub open spec fn half_turn(center: IPoint, radius: u16, right: bool) -> Turn {
    if right {
        Turn { center, radius, start: -90i16, sweep: 180 }
    } else {
        Turn { center, radius, start: 270, sweep: -180i16 }
    }
}

/// The turn of the pass `i`, from the end of its upper stroke to the start
/// of its lower stroke, half the brush's width below that end: to the
/// right in passes of even number, to the left in the others.
pub open spec fn turn_of(canvas: Canvas, brush: Brush, i: int) -> Turn {
    half_turn(
        IPoint {
            x: (canvas.cols - 1 - margin(brush)) as i32,
            y: (level(brush, i) + brush.width / 2) as i32,
        },
        brush.width / 2,
        i % 2 == 0,
    )
}

/// The angles at which a turn is sampled: from its start in steps of
/// `TURN_STEP_DEGREES` as far as its sweep goes.
pub open spec fn turn_angles_spec(turn: Turn) -> Seq<int> {
    if turn.sweep >= 0 {
        Seq::new(
            ((turn.sweep as int) / (TURN_STEP_DEGREES as int) + 1) as nat,
            |k: int| turn.start + TURN_STEP_DEGREES * k,
        )
    } else {
        Seq::new(
            ((-turn.sweep) / (TURN_STEP_DEGREES as int) + 1) as nat,
            |k: int| turn.start - TURN_STEP_DEGREES * k,
        )
    }
}

/// The leg `k` of the border trace for a corner radius of `r`: up the
/// left edge, along the top, down the right edge and back along the
/// bottom, each edge short of the corners by `r`, with a quarter-circle
/// of that radius in each corner passed.
pub open spec fn border_leg(canvas: Canvas, r: u16, k: int) -> ScanLeg {
    let rows = canvas.rows as int;
    let cols = canvas.cols as int;
    if k == 0 {
        ScanLeg::Line(
            ISegment {
                from: IPoint { x: 0, y: (rows - r) as i32 },
                to: IPoint { x: 0, y: r as i32 },
            },
        )
    } else if k == 1 {
        ScanLeg::Turn(
            Turn { center: IPoint { x: r as i32, y: r as i32 }, radius: r, start: 180, sweep: 90 },
        )
    } else if k == 2 {
        ScanLeg::Line(
            ISegment {
                from: IPoint { x: r as i32, y: 0 },
                to: IPoint { x: (cols - r) as i32, y: 0 },
            },
        )
    } else if k == 3 {
        ScanLeg::Turn(
            Turn {
                center: IPoint { x: (cols - r) as i32, y: r as i32 },
                radius: r,
                start: 270,
                sweep: 90,
            },
        )
    } else if k == 4 {
        ScanLeg::Line(
            ISegment {
                from: IPoint { x: cols as i32, y: r as i32 },
                to: IPoint { x: cols as i32, y: (rows - r) as i32 },
            },
        )
    } else if k == 5 {
        ScanLeg::Turn(
            Turn {
                center: IPoint { x: (cols - r) as i32, y: (rows - r) as i32 },
                radius: r,
                start: 0,
                sweep: 90,
            },
        )
    } else if k == 6 {
        ScanLeg::Line(
            ISegment {
                from: IPoint { x: (cols - r) as i32, y: rows as i32 },
                to: IPoint { x: r as i32, y: rows as i32 },
            },
        )
    } else {
        ScanLeg::Turn(
            Turn {
                center: IPoint { x: r as i32, y: (rows - r) as i32 },
                radius: r,
                start: 90,
                sweep: 90,
            },
        )
    }
}

/// The leg `j` of the scan path: each pass gives its upper stroke, its
/// turn and its lower stroke.
pub open spec fn leg(canvas: Canvas, brush: Brush, j: int) -> ScanLeg {
    if j % 3 == 0 {
        ScanLeg::Line(upper_stroke(canvas, brush, j / 3))
    } else if j % 3 == 1 {
        ScanLeg::Turn(turn_of(canvas, brush, j / 3))
    } else {
        ScanLeg::Line(lower_stroke(canvas, brush, j / 3))
    }
}

/// The strokes of the scan path: for each pass, from the first down, its
/// upper and its lower stroke.
pub open spec fn key_strokes(canvas: Canvas, brush: Brush) -> Seq<(ISegment, ISegment)> {
    Seq::new(
        pass_count(canvas.rows as int, brush.width as int) as nat,
        |i: int| (upper_stroke(canvas, brush, i), lower_stroke(canvas, brush, i)),
    )
}

/// The legs of the scan path, three to a pass.
pub open spec fn scan_path(canvas: Canvas, brush: Brush) -> Seq<ScanLeg> {
    Seq::new(
        (3 * pass_count(canvas.rows as int, brush.width as int)) as nat,
        |j: int| leg(canvas, brush, j),
    )
}

/// A canvas of fewer rows than one and a half widths has no pass, and any
/// other has at least one.
pub proof fn lemma_pass_count_positive(rows: int, width: int)
    requires
        width >= 1,
    ensures
        pass_count(rows, width) >= 1 <==> 2 * rows >= 3 * width,
{
    let n = 2 * rows - 3 * width;
    let d = 2 * width;
    vstd::arithmetic::div_mod::lemma_fundamental_div_mod(n, d);
    assert(n / d >= 0 <==> n >= 0) by (nonlinear_arith)
        requires
            n == d * (n / d) + n % d,
            0 <= n % d < d,
    ;
}

/// A higher canvas has no fewer passes.
pub proof fn lemma_pass_count_monotone(rows: int, more_rows: int, width: int)
    requires
        width >= 1,
        rows <= more_rows,
    ensures
        pass_count(rows, width) <= pass_count(more_rows, width),
{
    vstd::arithmetic::div_mod::lemma_div_is_ordered(
        2 * rows - 3 * width,
        2 * more_rows - 3 * width,
        2 * width,
    );
}

/// The lower stroke of the last pass lies no lower than the canvas is
/// high.
pub proof fn lemma_passes_stay_on_canvas(rows: int, width: int, i: int)
    requires
        width >= 1,
        0 <= i < pass_count(rows, width),
    ensures
        width / 2 + i * width + width <= rows,
{
    let n = 2 * rows - 3 * width;
    let d = 2 * width;
    vstd::arithmetic::div_mod::lemma_fundamental_div_mod(n, d);
    assert(2 * (i * width) <= n) by (nonlinear_arith)
        requires
            n == d * (n / d) + n % d,
            0 <= n % d < d,
            d == 2 * width,
            width >= 1,
            0 <= i <= n / d,
    ;
}

/// The margin keeps the brush off the border: on a stroke that runs from
/// the left margin to the right, a brush that lies along the stroke covers
/// neither the first nor the last column of the canvas.
pub proof fn lemma_margin_clears_border(canvas: Canvas, brush: Brush)
    requires
        brush.reach() >= 1,
    ensures
        margin(brush) - (brush.reach() - 1) == 1,
        canvas.cols - 1 - margin(brush) + (brush.reach() - 1) == canvas.cols - 2,
{
    assert((brush.width / 2) * brush.deformation >= 0) by (nonlinear_arith);
}

/// Counts the passes that fit on the canvas, or tells that none does.
pub fn passes(canvas: &Canvas, brush: &Brush) -> (count: Result<u16, PathError>)
    requires
        brush.wf(),
    ensures
        count == if supports(*canvas, *brush) {
            Ok::<u16, PathError>(pass_count(canvas.rows as int, brush.width as int) as u16)
        } else {
            Err::<u16, PathError>(PathError::UnsupportedCanvasSize)
        },
        supports(*canvas, *brush) ==> 1 <= pass_count(canvas.rows as int, brush.width as int)
            <= u16::MAX,
{
    let rows: u32 = canvas.rows as u32;
    let width: u32 = brush.width as u32;
    proof {
        lemma_pass_count_positive(rows as int, width as int);
    }
    if 2 * rows < 3 * width {
        return Err(PathError::UnsupportedCanvasSize);
    }
    let n: u32 = 2 * rows - 3 * width;
    let d: u32 = 2 * width;
    assert(n / d <= n) by (nonlinear_arith)
        requires
            d >= 1,
            n >= 0,
    ;
    let count: u32 = n / d + 1;
    assert(count <= u16::MAX) by (nonlinear_arith)
        requires
            count == n / d + 1,
            n <= 2 * 0xffff - 3,
            d >= 2,
            n >= 0,
    ;
    Ok(count as u16)
}

/// Lays out the strokes of the scan path: for each pass in turn its upper
/// and its lower stroke. A canvas that is too low for one pass is refused.
pub fn get_key_points(canvas: &Canvas, brush: &Brush) -> (strokes: Result<
    Vec<(ISegment, ISegment)>,
    PathError,
>)
    requires
        brush.wf(),
    ensures
        match strokes {
            Ok(pairs) => supports(*canvas, *brush) && pairs@ == key_strokes(*canvas, *brush),
            Err(e) => !supports(*canvas, *brush) && e == PathError::UnsupportedCanvasSize,
        },
{
    let count: u16 = match passes(canvas, brush) {
        Ok(count) => count,
        Err(e) => {
            return Err(e);
        },
    };
    let half: i32 = (brush.width / 2) as i32;
    let width: i32 = brush.width as i32;
    assert(half * brush.deformation <= 0x7fff * 0xffff) by (nonlinear_arith)
        requires
            0 <= half <= 0x7fff,
            brush.deformation <= 0xffff,
    ;
    let left: i32 = half * (brush.deformation as i32);
    let right: i32 = canvas.cols as i32 - 1 - left;
    let mut pairs: Vec<(ISegment, ISegment)> = Vec::new();
    let mut i: u16 = 0;
    while i < count
        invariant
            brush.wf(),
            count == pass_count(canvas.rows as int, brush.width as int),
            half == brush.width / 2,
            width == brush.width,
            left == margin(*brush),
            right == canvas.cols - 1 - margin(*brush),
            i <= count,
            pairs@.len() == i,
            forall|k: int|
                0 <= k < i ==> #[trigger] pairs@[k] == (
                    upper_stroke(*canvas, *brush, k),
                    lower_stroke(*canvas, *brush, k),
                ),
        decreases count - i,
    {
        proof {
            lemma_passes_stay_on_canvas(canvas.rows as int, brush.width as int, i as int);
            assert(i * width >= 0) by (nonlinear_arith)
                requires
                    i >= 0,
                    width >= 0,
            ;
        }
        let y: i32 = half + (i as i32) * width;
        let upper = ISegment::new(IPoint::new(left, y), IPoint::new(right, y));
        let lower = ISegment::new(IPoint::new(right, y + width), IPoint::new(left, y + width));
        pairs.push((upper, lower));
        i += 1;
    }
    proof {
        assert(pairs@ =~= key_strokes(*canvas, *brush));
    }
    Ok(pairs)
}

/// Lays out the scan path leg by leg: for each pass in turn its upper
/// stroke, its turn and its lower stroke. A canvas that is too low for one
/// pass is refused.
pub fn scan_legs(canvas: &Canvas, brush: &Brush) -> (legs: Result<Vec<ScanLeg>, PathError>)
    requires
        brush.wf(),
    ensures
        match legs {
            Ok(path) => supports(*canvas, *brush) && path@ == scan_path(*canvas, *brush),
            Err(e) => !supports(*canvas, *brush) && e == PathError::UnsupportedCanvasSize,
        },
{
    let pairs = match get_key_points(canvas, brush) {
        Ok(pairs) => pairs,
        Err(e) => {
            return Err(e);
        },
    };
    let radius: u16 = brush.width / 2;
    let mut path: Vec<ScanLeg> = Vec::new();
    let mut i: usize = 0;
    while i < pairs.len()
        invariant
            brush.wf(),
            radius == brush.width / 2,
            pass_count(canvas.rows as int, brush.width as int) >= 0,
            pairs@ == key_strokes(*canvas, *brush),
            i <= pairs.len(),
            path@.len() == 3 * i,
            forall|j: int| 0 <= j < 3 * i ==> #[trigger] path@[j] == leg(*canvas, *brush, j),
        decreases pairs.len() - i,
    {
        let (upper, lower) = pairs[i];
        proof {
            lemma_passes_stay_on_canvas(canvas.rows as int, brush.width as int, i as int);
            assert(i * brush.width >= 0) by (nonlinear_arith)
                requires
                    i >= 0,
                    brush.width >= 0,
            ;
        }
        let center = IPoint::new(upper.to.x, upper.to.y + radius as i32);
        let turn = if i % 2 == 0 {
            Turn { center, radius, start: -90, sweep: 180 }
        } else {
            Turn { center, radius, start: 270, sweep: -180 }
        };
        path.push(ScanLeg::Line(upper));
        path.push(ScanLeg::Turn(turn));
        path.push(ScanLeg::Line(lower));
        i += 1;
    }
    proof {
        assert(path@ =~= scan_path(*canvas, *brush));
    }
    Ok(path)
}

/// Lists the angles at which a turn is sampled, in degrees.
pub fn turn_angles(turn: &Turn) -> (angles: Vec<i32>)
    ensures
        angles@.len() == turn_angles_spec(*turn).len(),
        forall|k: int| 0 <= k < angles@.len() ==> #[trigger] angles@[k] == turn_angles_spec(
            *turn,
        )[k],
{
    let start: i32 = turn.start as i32;
    let sweep: i32 = turn.sweep as i32;
    let step: i32 = TURN_STEP_DEGREES as i32;
    let count: i32 = if sweep >= 0 {
        sweep / step + 1
    } else {
        (-sweep) / step + 1
    };
    let mut angles: Vec<i32> = Vec::new();
    let mut k: i32 = 0;
    while k < count
        invariant
            start == turn.start,
            sweep == turn.sweep,
            step == 5,
            count == turn_angles_spec(*turn).len(),
            0 <= k <= count <= 6555,
            angles@.len() == k,
            forall|j: int| 0 <= j < k ==> #[trigger] angles@[j] == turn_angles_spec(*turn)[j],
        decreases count - k,
    {
        let angle: i32 = if sweep >= 0 {
            start + step * k
        } else {
            start - step * k
        };
        angles.push(angle);
        k += 1;
    }
    angles
}

/// Lays out the border trace: the four edges of the canvas, each short of
/// the corners by half the brush's width, and after each edge the
/// quarter-circle that leads round the corner to the next.
pub fn border_trace(canvas: &Canvas, brush: &Brush) -> (legs: Vec<ScanLeg>)
    ensures
        legs@ == Seq::new(8, |k: int| border_leg(*canvas, brush.width / 2, k)),
{
    let r: u16 = brush.width / 2;
    let near: i32 = r as i32;
    let far_x: i32 = canvas.cols as i32 - near;
    let far_y: i32 = canvas.rows as i32 - near;
    let rows: i32 = canvas.rows as i32;
    let cols: i32 = canvas.cols as i32;
    let mut legs: Vec<ScanLeg> = Vec::new();
    legs.push(ScanLeg::Line(ISegment::new(IPoint::new(0, far_y), IPoint::new(0, near))));
    legs.push(
        ScanLeg::Turn(Turn { center: IPoint::new(near, near), radius: r, start: 180, sweep: 90 }),
    );
    legs.push(ScanLeg::Line(ISegment::new(IPoint::new(near, 0), IPoint::new(far_x, 0))));
    legs.push(
        ScanLeg::Turn(Turn { center: IPoint::new(far_x, near), radius: r, start: 270, sweep: 90 }),
    );
    legs.push(ScanLeg::Line(ISegment::new(IPoint::new(cols, near), IPoint::new(cols, far_y))));
    legs.push(
        ScanLeg::Turn(Turn { center: IPoint::new(far_x, far_y), radius: r, start: 0, sweep: 90 }),
    );
    legs.push(ScanLeg::Line(ISegment::new(IPoint::new(far_x, rows), IPoint::new(near, rows))));
    legs.push(
        ScanLeg::Turn(Turn { center: IPoint::new(near, far_y), radius: r, start: 90, sweep: 90 }),
    );
    proof {
        assert(legs@ =~= Seq::new(8, |k: int| border_leg(*canvas, brush.width / 2, k)));
    }
    legs
}

/// The points of a stroke with the heading of the brush on it: the cells
/// of the segment, each with the direction from the segment's start to its
/// end.
pub open spec fn line_path_spec(seg: ISegment) -> Seq<OrientedPoint> {
    seg.line_points().map_values(
        |p: IPoint|
            OrientedPoint {
                position: p,
                heading: IPoint {
                    x: (seg.to.x - seg.from.x) as i32,
                    y: (seg.to.y - seg.from.y) as i32,
                },
            },
    )
}

/// Walks a stroke and gives each of its cells the stroke's direction as
/// heading.
pub fn line_path(seg: &ISegment) -> (path: Vec<OrientedPoint>)
    requires
        seg.spans(),
    ensures
        path@ == line_path_spec(*seg),
{
    let heading = seg.to - seg.from;
    let cells = seg.get_line_points();
    let mut path: Vec<OrientedPoint> = Vec::new();
    let mut i: usize = 0;
    while i < cells.len()
        invariant
            i <= cells.len(),
            cells@ == seg.line_points(),
            heading.x == seg.to.x - seg.from.x,
            heading.y == seg.to.y - seg.from.y,
            path@.len() == i,
            forall|k: int| 0 <= k < i ==> #[trigger] path@[k] == line_path_spec(*seg)[k],
        decreases cells.len() - i,
    {
        path.push(OrientedPoint { position: cells[i], heading });
        i += 1;
    }
    proof {
        assert(path@ =~= line_path_spec(*seg));
    }
    path
}

} // verus!
