//! The curve path: bands across the canvas in which a curve is sampled
//! column by column, and the border of the canvas that closes the path.

use crate::brush::{Brush, OrientedPoint};
use crate::canvas::Canvas;
use crate::direction::{lemma_steps_on_axis, step_x, step_y};
use crate::point::IPoint;
use crate::segment::ISegment;
use vstd::prelude::*;

verus! {

/// One of the four headings along the axes of the grid. Rows are counted
/// downward, so `South` points to the larger rows.
#[derive(Clone, Copy, Debug, PartialEq, Eq, Structural)]
pub enum Cardinal {
    East,
    South,
    West,
    North,
}

impl Cardinal {
    /// The step of length one in this heading.
    pub open spec fn unit(self) -> IPoint {
        match self {
            Cardinal::East => IPoint { x: 1, y: 0 },
            Cardinal::South => IPoint { x: 0, y: 1 },
            Cardinal::West => IPoint { x: -1i32, y: 0 },
            Cardinal::North => IPoint { x: 0, y: -1i32 },
        }
    }

    /// Gives the step of length one in this heading.
    pub fn vector(self) -> (v: IPoint)
        ensures
            v == self.unit(),
    {
        match self {
            Cardinal::East => IPoint::new(1, 0),
            Cardinal::South => IPoint::new(0, 1),
            Cardinal::West => IPoint::new(-1, 0),
            Cardinal::North => IPoint::new(0, -1),
        }
    }
}

/// In a heading along an axis every step advances by one cell, so a stroke
/// of `s` steps ends `s` cells from its start.
pub proof fn lemma_cardinal_steps(heading: Cardinal, s: nat)
    ensures
        step_x(heading.unit().x as int, heading.unit().y as int, s) == match heading {
            Cardinal::East => s as int,
            Cardinal::West => -(s as int),
            _ => 0,
        },
        step_y(heading.unit().x as int, heading.unit().y as int, s) == match heading {
            Cardinal::South => s as int,
            Cardinal::North => -(s as int),
            _ => 0,
        },
{
    lemma_steps_on_axis(1, s);
    lemma_steps_on_axis(-1, s);
}

/// A band of the canvas: the row that the curve is measured from, and the
/// columns between which it is sampled, first to last.
#[derive(Clone, Copy, Debug, PartialEq, Eq, Structural)]
pub struct Band {
    pub offset: u16,
    pub from: i32,
    pub to: i32,
}

/// The number of bands: one for each multiple of the brush's width, from 0
/// up, that leaves more than the brush's width of rows below it.
pub open spec fn band_count(canvas: Canvas, brush: Brush) -> nat {
    if canvas.rows > brush.width {
        ((canvas.rows - 1) / (brush.width as int)) as nat
    } else {
        0
    }
}

/// The band `i`. Bands of even number run from the left edge to the column
/// that lies two widths of the brush before the right edge, the others from
/// the right edge to the column two widths after the left edge.
pub open spec fn band(canvas: Canvas, brush: Brush, i: int) -> Band {
    Band {
        offset: (i * brush.width) as u16,
        from: if i % 2 == 0 {
            0
        } else {
            (canvas.cols - 1) as i32
        },
        to: if i % 2 == 0 {
            (canvas.cols - 2 * brush.width - 1) as i32
        } else {
            (2 * brush.width) as i32
        },
    }
}

/// The band `i` exists exactly when its offset leaves more than the
/// brush's width of rows below it.
pub proof fn lemma_band_count(canvas: Canvas, brush: Brush, i: int)
    requires
        brush.wf(),
        0 <= i,
    ensures
        i < band_count(canvas, brush) <==> i * brush.width < canvas.rows - brush.width,
{
    let w = brush.width as int;
    let n = canvas.rows - 1;
    if canvas.rows > brush.width {
        vstd::arithmetic::div_mod::lemma_fundamental_div_mod(n, w);
        assert(i < n / w <==> i * w < n + 1 - w) by (nonlinear_arith)
            requires
                n == w * (n / w) + n % w,
                0 <= n % w < w,
                0 <= i,
        ;
    } else {
        assert(i * w >= 0) by (nonlinear_arith)
            requires
                i >= 0,
                w >= 0,
        ;
    }
}

/// Lays out the bands of the canvas from the top down, one brush's width
/// apart, running to the right and to the left in turn.
pub fn bands(canvas: &Canvas, brush: &Brush) -> (out: Vec<Band>)
    requires
        brush.wf(),
    ensures
        out@ == Seq::new(band_count(*canvas, *brush), |i: int| band(*canvas, *brush, i)),
{
    let mut out: Vec<Band> = Vec::new();
    if canvas.rows <= brush.width {
        proof {
            assert(out@ =~= Seq::new(band_count(*canvas, *brush), |i: int| band(*canvas, *brush, i)));
        }
        return out;
    }
    let limit: u32 = (canvas.rows - brush.width) as u32;
    let width: u32 = brush.width as u32;
    let cols: i32 = canvas.cols as i32;
    let mut i: u32 = 0;
    let mut offset: u32 = 0;
    while offset < limit
        invariant
            brush.wf(),
            canvas.rows > brush.width,
            limit == canvas.rows - brush.width,
            width == brush.width,
            cols == canvas.cols,
            offset == i * width,
            i <= band_count(*canvas, *brush),
            i <= 0xffff,
            out@.len() == i,
            forall|k: int| 0 <= k < i ==> #[trigger] out@[k] == band(*canvas, *brush, k),
        decreases limit + width - offset,
    {
        proof {
            lemma_band_count(*canvas, *brush, i as int);
            lemma_band_count(*canvas, *brush, i as int + 1);
            assert((i + 1) * width == i * width + width) by (nonlinear_arith);
        }
        let b = if i % 2 == 0 {
            Band { offset: offset as u16, from: 0, to: cols - 2 * (width as i32) - 1 }
        } else {
            Band { offset: offset as u16, from: cols - 1, to: 2 * (width as i32) }
        };
        out.push(b);
        offset += width;
        i += 1;
    }
    proof {
        lemma_band_count(*canvas, *brush, i as int);
        assert(out@ =~= Seq::new(band_count(*canvas, *brush), |i: int| band(*canvas, *brush, i)));
    }
    out
}

/// The whole numbers from `from` to `to`, both taken in, upward or
/// downward.
pub open spec fn unit_range_spec(from: int, to: int) -> Seq<int> {
    if from <= to {
        Seq::new((to - from + 1) as nat, |k: int| from + k)
    } else {
        Seq::new((from - to + 1) as nat, |k: int| from - k)
    }
}

/// Lists the columns at which a band is sampled: from `from` to `to` in
/// steps of one.
pub fn unit_range(from: i32, to: i32) -> (out: Vec<i32>)
    ensures
        out@.len() == unit_range_spec(from as int, to as int).len(),
        forall|k: int| 0 <= k < out@.len() ==> #[trigger] out@[k] == unit_range_spec(
            from as int,
            to as int,
        )[k],
{
    let mut out: Vec<i32> = Vec::new();
    let count: i64 = if from <= to {
        to as i64 - from as i64 + 1
    } else {
        from as i64 - to as i64 + 1
    };
    let mut k: i64 = 0;
    while k < count
        invariant
            count == unit_range_spec(from as int, to as int).len(),
            0 <= k <= count,
            out@.len() == k,
            forall|j: int| 0 <= j < k ==> #[trigger] out@[j] == unit_range_spec(
                from as int,
                to as int,
            )[j],
        decreases count - k,
    {
        let t: i64 = if from <= to {
            from as i64 + k
        } else {
            from as i64 - k
        };
        out.push(t as i32);
        k += 1;
    }
    out
}

/// The edge `k` of the border with the heading of the brush on it. The
/// border runs up the left edge, along the top to the right, down the
/// right edge and back along the bottom.
pub open spec fn border_edge(canvas: Canvas, k: int) -> (ISegment, Cardinal) {
    let rows = canvas.rows as i32;
    let cols = canvas.cols as i32;
    if k == 0 {
        (ISegment { from: IPoint { x: 0, y: rows }, to: IPoint { x: 0, y: 0 } }, Cardinal::East)
    } else if k == 1 {
        (ISegment { from: IPoint { x: 0, y: 0 }, to: IPoint { x: cols, y: 0 } }, Cardinal::South)
    } else if k == 2 {
        (
            ISegment { from: IPoint { x: cols, y: 0 }, to: IPoint { x: cols, y: rows } },
            Cardinal::West,
        )
    } else {
        (
            ISegment { from: IPoint { x: cols, y: rows }, to: IPoint { x: 0, y: rows } },
            Cardinal::North,
        )
    }
}

/// Lays out the four edges of the border.
pub fn border(canvas: &Canvas) -> (edges: Vec<(ISegment, Cardinal)>)
    ensures
        edges@ == Seq::new(4, |k: int| border_edge(*canvas, k)),
{
    let rows: i32 = canvas.rows as i32;
    let cols: i32 = canvas.cols as i32;
    let mut edges: Vec<(ISegment, Cardinal)> = Vec::new();
    edges.push((ISegment::new(IPoint::new(0, rows), IPoint::new(0, 0)), Cardinal::East));
    edges.push((ISegment::new(IPoint::new(0, 0), IPoint::new(cols, 0)), Cardinal::South));
    edges.push((ISegment::new(IPoint::new(cols, 0), IPoint::new(cols, rows)), Cardinal::West));
    edges.push((ISegment::new(IPoint::new(cols, rows), IPoint::new(0, rows)), Cardinal::North));
    proof {
        assert(edges@ =~= Seq::new(4, |k: int| border_edge(*canvas, k)));
    }
    edges
}

/// The cells of `cells`, each with the heading `heading`.
pub open spec fn headed(cells: Seq<IPoint>, heading: Cardinal) -> Seq<OrientedPoint> {
    cells.map_values(|p: IPoint| OrientedPoint { position: p, heading: heading.unit() })
}

/// Appends each of `cells`, with the heading `heading`, to `path`.
pub fn extend_with_heading(path: &mut Vec<OrientedPoint>, cells: &Vec<IPoint>, heading: Cardinal)
    ensures
        final(path)@ == old(path)@ + headed(cells@, heading),
{
    let v = heading.vector();
    let mut i: usize = 0;
    while i < cells.len()
        invariant
            i <= cells.len(),
            v == heading.unit(),
            path@ == old(path)@ + headed(cells@, heading).take(i as int),
        decreases cells.len() - i,
    {
        path.push(OrientedPoint { position: cells[i], heading: v });
        i += 1;
        proof {
            assert(path@ =~= old(path)@ + headed(cells@, heading).take(i as int));
        }
    }
    proof {
        assert(headed(cells@, heading).take(cells.len() as int) =~= headed(cells@, heading));
    }
}

/// The cells of the edge `k` of the border, each with the edge's heading.
pub open spec fn edge_path(canvas: Canvas, k: int) -> Seq<OrientedPoint> {
    headed(border_edge(canvas, k).0.line_points(), border_edge(canvas, k).1)
}

/// The border as a path: the cells of its four edges, edge after edge,
/// each with the heading of its edge.
pub open spec fn border_path_spec(canvas: Canvas) -> Seq<OrientedPoint> {
    edge_path(canvas, 0) + edge_path(canvas, 1) + edge_path(canvas, 2) + edge_path(canvas, 3)
}

/// Walks the border of the canvas edge by edge.
pub fn border_path(canvas: &Canvas) -> (path: Vec<OrientedPoint>)
    ensures
        path@ == border_path_spec(*canvas),
{
    let edges = border(canvas);
    let mut path: Vec<OrientedPoint> = Vec::new();
    let (left, east) = edges[0];
    let cells = left.get_line_points();
    extend_with_heading(&mut path, &cells, east);
    let (top, south) = edges[1];
    let cells = top.get_line_points();
    extend_with_heading(&mut path, &cells, south);
    let (right, west) = edges[2];
    let cells = right.get_line_points();
    extend_with_heading(&mut path, &cells, west);
    let (bottom, north) = edges[3];
    let cells = bottom.get_line_points();
    extend_with_heading(&mut path, &cells, north);
    proof {
        assert(path@ =~= border_path_spec(*canvas));
    }
    path
}

} // verus!
