//! The visible grid, and what of a set of cells is sent to the terminal.

use crate::point::IPoint;
use crate::segment::ISegment;
use crate::terminal::{Glyph, SetGlyph};
use vstd::prelude::*;

verus! {

/// The size of the terminal's visible grid, taken once at the start.
#[derive(Clone, Copy, Debug, PartialEq, Eq, Structural)]
pub struct Canvas {
    pub rows: u16,
    pub cols: u16,
}

/// What a terminal shows: the character in each cell, by column and row
/// counted from 1.
pub type Screen = Map<(int, int), char>;

/// The screen that is blank in every cell.
pub open spec fn blank_screen() -> Screen {
    Map::total(|at: (int, int)| ' ')
}

/// The screen after one request was carried out.
pub open spec fn screen_after_one(screen: Screen, op: SetGlyph) -> Screen {
    screen.insert((op.col as int, op.row as int), op.glyph.symbol())
}

/// The screen after the requests were carried out in order.
pub open spec fn screen_after(screen: Screen, ops: Seq<SetGlyph>) -> Screen
    decreases ops.len(),
{
    if ops.len() == 0 {
        screen
    } else {
        screen_after_one(screen_after(screen, ops.drop_last()), ops.last())
    }
}

impl Canvas {
    /// The canvas of a terminal with `rows` rows and `cols` columns.
    pub fn new(rows: u16, cols: u16) -> (canvas: Canvas)
        ensures
            canvas.rows == rows,
            canvas.cols == cols,
    {
        Canvas { rows, cols }
    }

    /// Whether the cell `p` lies on the visible grid.
    pub open spec fn shows(self, p: IPoint) -> bool {
        0 <= p.x < self.cols && 0 <= p.y < self.rows
    }

    /// Whether a request addresses a cell of the visible grid.
    pub open spec fn addresses(self, op: SetGlyph) -> bool {
        1 <= op.col <= self.cols && 1 <= op.row <= self.rows
    }

    /// The request that sets the cell `p`: none for a cell off the grid,
    /// else the cell's column and row, each counted from 1, with the mark
    /// or the blank.
    pub open spec fn request(self, p: IPoint, is_there: bool) -> Option<SetGlyph> {
        if self.shows(p) {
            Some(
                SetGlyph {
                    col: (p.x + 1) as u16,
                    row: (p.y + 1) as u16,
                    glyph: Glyph::for_presence(is_there),
                },
            )
        } else {
            None
        }
    }

    /// The requests for the cells of `cells` that lie on the grid, one for
    /// each, in the order of the cells.
    pub open spec fn requests(self, cells: Seq<IPoint>, is_there: bool) -> Seq<SetGlyph> {
        cells.filter_map(|p: IPoint| self.request(p, is_there))
    }

    /// Whether one of `cells` lies on the grid at column `col - 1` and row
    /// `row - 1`.
    pub open spec fn touches(self, cells: Seq<IPoint>, col: int, row: int) -> bool {
        exists|i: int|
            0 <= i < cells.len() && self.shows(#[trigger] cells[i]) && cells[i].x + 1 == col
                && cells[i].y + 1 == row
    }

    /// Tells whether the cell `p` lies on the visible grid.
    pub fn contains(&self, p: IPoint) -> (inside: bool)
        ensures
            inside == self.shows(p),
    {
        0 <= p.x && p.x < self.cols as i32 && 0 <= p.y && p.y < self.rows as i32
    }

    /// The request that marks the cell `p`, or blanks it where `is_there`
    /// is false. A cell off the grid gives none.
    pub fn draw_point(&self, p: IPoint, is_there: bool) -> (op: Option<SetGlyph>)
        ensures
            op == self.request(p, is_there),
            op matches Some(o) ==> o.wf() && self.addresses(o),
    {
        if self.contains(p) {
            Some(SetGlyph { col: (p.x + 1) as u16, row: (p.y + 1) as u16, glyph: Glyph::of(is_there) })
        } else {
            None
        }
    }

    /// The requests that set each cell of `cells` on the grid, in order.
    pub fn draw_cells(&self, cells: &Vec<IPoint>, is_there: bool) -> (ops: Vec<SetGlyph>)
        ensures
            ops@ == self.requests(cells@, is_there),
            forall|k: int| 0 <= k < ops@.len() ==> (#[trigger] ops@[k]).wf() && self.addresses(ops@[k]),
    {
        let mut ops: Vec<SetGlyph> = Vec::new();
        let mut i: usize = 0;
        while i < cells.len()
            invariant
                i <= cells.len(),
                ops@ == self.requests(cells@.take(i as int), is_there),
                forall|k: int|
                    0 <= k < ops@.len() ==> (#[trigger] ops@[k]).wf() && self.addresses(ops@[k]),
            decreases cells.len() - i,
        {
            proof {
                cells@.lemma_filter_map_take_succ(|p: IPoint| self.request(p, is_there), i as int);
            }
            match self.draw_point(cells[i], is_there) {
                Some(op) => {
                    ops.push(op);
                },
                None => {},
            }
            i += 1;
        }
        proof {
            assert(cells@.take(cells.len() as int) == cells@);
        }
        ops
    }

    /// The requests that mark the cells of `cells` on the grid with `#`,
    /// one for each such cell, in order. Cells off the grid are passed
    /// over.
    pub fn paint(&self, cells: &Vec<IPoint>) -> (ops: Vec<SetGlyph>)
        ensures
            ops@ == self.requests(cells@, true),
            forall|k: int| 0 <= k < ops@.len() ==> (#[trigger] ops@[k]).wf() && self.addresses(ops@[k]),
    {
        self.draw_cells(cells, true)
    }

    /// The requests that blank the cells of `cells` on the grid, one for
    /// each such cell, in order. Cells off the grid are passed over.
    pub fn clear(&self, cells: &Vec<IPoint>) -> (ops: Vec<SetGlyph>)
        ensures
            ops@ == self.requests(cells@, false),
            forall|k: int| 0 <= k < ops@.len() ==> (#[trigger] ops@[k]).wf() && self.addresses(ops@[k]),
    {
        self.draw_cells(cells, false)
    }

    /// The requests that set the cells of the segment `seg` on the grid.
    pub fn draw_segment(&self, seg: &ISegment, is_there: bool) -> (ops: Vec<SetGlyph>)
        requires
            seg.spans(),
        ensures
            ops@ == self.requests(seg.line_points(), is_there),
            forall|k: int| 0 <= k < ops@.len() ==> (#[trigger] ops@[k]).wf() && self.addresses(ops@[k]),
    {
        let cells = seg.get_line_points();
        self.draw_cells(&cells, is_there)
    }

    /// Every request for a set of cells addresses a cell of the grid that
    /// is one of them.
    pub proof fn lemma_requests_on_grid(self, cells: Seq<IPoint>, is_there: bool)
        ensures
            forall|k: int|
                0 <= k < self.requests(cells, is_there).len() ==> {
                    let op = #[trigger] self.requests(cells, is_there)[k];
                    &&& op.wf()
                    &&& self.addresses(op)
                    &&& self.touches(cells, op.col as int, op.row as int)
                    &&& op.glyph == Glyph::for_presence(is_there)
                },
        decreases cells.len(),
    {
        let f = |p: IPoint| self.request(p, is_there);
        if cells.len() > 0 {
            let init = cells.drop_last();
            self.lemma_requests_on_grid(init, is_there);
            let ops = self.requests(cells, is_there);
            assert forall|k: int| 0 <= k < ops.len() implies {
                let op = #[trigger] ops[k];
                &&& op.wf()
                &&& self.addresses(op)
                &&& self.touches(cells, op.col as int, op.row as int)
                &&& op.glyph == Glyph::for_presence(is_there)
            } by {
                let op = ops[k];
                if k < self.requests(init, is_there).len() {
                    assert(op == self.requests(init, is_there)[k]);
                    let i = choose|i: int|
                        0 <= i < init.len() && self.shows(#[trigger] init[i]) && init[i].x + 1
                            == op.col && init[i].y + 1 == op.row;
                    assert(cells[i] == init[i]);
                } else {
                    assert(self.shows(cells[cells.len() - 1]));
                }
            }
        }
    }

    /// After the requests for a set of cells were carried out, a cell of
    /// the grid that is one of them shows the glyph, and any other cell
    /// shows what it did.
    pub proof fn lemma_screen_after_requests(
        self,
        screen: Screen,
        cells: Seq<IPoint>,
        is_there: bool,
        col: int,
        row: int,
    )
        ensures
            screen_after(screen, self.requests(cells, is_there)).dom().contains((col, row)) <==> (
            screen.dom().contains((col, row)) || self.touches(cells, col, row)),
            screen_after(screen, self.requests(cells, is_there))[(col, row)] == if self.touches(
                cells,
                col,
                row,
            ) {
                Glyph::for_presence(is_there).symbol()
            } else {
                screen[(col, row)]
            },
        decreases cells.len(),
    {
        let f = |p: IPoint| self.request(p, is_there);
        if cells.len() == 0 {
            assert(self.requests(cells, is_there).len() == 0);
        } else {
            let init = cells.drop_last();
            let last = cells.last();
            self.lemma_screen_after_requests(screen, init, is_there, col, row);
            let before = self.requests(init, is_there);
            let ops = self.requests(cells, is_there);
            if self.touches(init, col, row) {
                let i = choose|i: int|
                    0 <= i < init.len() && self.shows(#[trigger] init[i]) && init[i].x + 1 == col
                        && init[i].y + 1 == row;
                assert(cells[i] == init[i]);
            }
            if self.touches(cells, col, row) {
                let i = choose|i: int|
                    0 <= i < cells.len() && self.shows(#[trigger] cells[i]) && cells[i].x + 1
                        == col && cells[i].y + 1 == row;
                if i < init.len() {
                    assert(init[i] == cells[i]);
                }
            }
            match self.request(last, is_there) {
                Some(op) => {
                    assert(ops == before + seq![op]);
                    assert(ops.drop_last() == before);
                    assert(ops.last() == op);
                    assert(self.shows(cells[cells.len() - 1]));
                },
                None => {
                    assert(ops == before);
                },
            }
        }
    }

    /// Painting a set of cells and then clearing the same cells leaves
    /// every cell of the grid that is one of them blank, and every other
    /// cell as it was.
    pub proof fn lemma_paint_then_clear(self, screen: Screen, cells: Seq<IPoint>, col: int, row: int)
        ensures
            screen_after(
                screen_after(screen, self.requests(cells, true)),
                self.requests(cells, false),
            )[(col, row)] == if self.touches(cells, col, row) {
                ' '
            } else {
                screen[(col, row)]
            },
    {
        let painted = screen_after(screen, self.requests(cells, true));
        self.lemma_screen_after_requests(screen, cells, true, col, row);
        self.lemma_screen_after_requests(painted, cells, false, col, row);
    }

    /// On a screen that was blank, painting a set of cells and then
    /// clearing the same cells gives the blank screen again.
    pub proof fn lemma_paint_then_clear_restores_blank(self, cells: Seq<IPoint>)
        ensures
            screen_after(
                screen_after(blank_screen(), self.requests(cells, true)),
                self.requests(cells, false),
            ) == blank_screen(),
    {
        let painted = screen_after(blank_screen(), self.requests(cells, true));
        let cleared = screen_after(painted, self.requests(cells, false));
        assert forall|at: (int, int)| #[trigger] cleared.dom().contains(at) by {
            self.lemma_screen_after_requests(blank_screen(), cells, true, at.0, at.1);
            self.lemma_screen_after_requests(painted, cells, false, at.0, at.1);
        }
        assert forall|at: (int, int)| #[trigger] cleared[at] == blank_screen()[at] by {
            self.lemma_screen_after_requests(blank_screen(), cells, true, at.0, at.1);
            self.lemma_screen_after_requests(painted, cells, false, at.0, at.1);
        }
        assert(cleared =~= blank_screen());
    }
}

} // verus!
