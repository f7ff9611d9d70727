use std::collections::HashMap;
use termbrush::canvas::Canvas;
use termbrush::point::IPoint;
use termbrush::segment::ISegment;
use termbrush::terminal::{Glyph, SetGlyph};

fn mark(col: u16, row: u16) -> SetGlyph {
    SetGlyph { col, row, glyph: Glyph::Mark }
}

fn blank(col: u16, row: u16) -> SetGlyph {
    SetGlyph { col, row, glyph: Glyph::Blank }
}

fn carry_out(screen: &mut HashMap<(u16, u16), char>, ops: &[SetGlyph]) {
    for op in ops {
        let text = op.text();
        let glyph = text.chars().last().unwrap();
        screen.insert((op.col, op.row), glyph);
    }
}

#[test]
fn canvas_new_keeps_the_size() {
    let canvas = Canvas::new(20, 80);
    assert_eq!(canvas.rows, 20);
    assert_eq!(canvas.cols, 80);
}

#[test]
fn canvas_contains_its_cells_only() {
    let canvas = Canvas::new(20, 80);
    assert!(canvas.contains(IPoint::new(0, 0)));
    assert!(canvas.contains(IPoint::new(79, 19)));
    assert!(!canvas.contains(IPoint::new(80, 19)));
    assert!(!canvas.contains(IPoint::new(79, 20)));
    assert!(!canvas.contains(IPoint::new(-1, 0)));
    assert!(!canvas.contains(IPoint::new(0, -1)));
    assert!(!Canvas::new(0, 0).contains(IPoint::new(0, 0)));
}

#[test]
fn draw_point_counts_from_one() {
    let canvas = Canvas::new(20, 80);
    assert_eq!(canvas.draw_point(IPoint::new(0, 0), true), Some(mark(1, 1)));
    assert_eq!(canvas.draw_point(IPoint::new(4, 2), true), Some(mark(5, 3)));
    assert_eq!(canvas.draw_point(IPoint::new(4, 2), false), Some(blank(5, 3)));
    assert_eq!(canvas.draw_point(IPoint::new(79, 19), true), Some(mark(80, 20)));
}

#[test]
fn draw_point_passes_over_cells_off_the_grid() {
    let canvas = Canvas::new(20, 80);
    assert_eq!(canvas.draw_point(IPoint::new(80, 0), true), None);
    assert_eq!(canvas.draw_point(IPoint::new(0, 20), true), None);
    assert_eq!(canvas.draw_point(IPoint::new(-1, 5), false), None);
    assert_eq!(canvas.draw_point(IPoint::new(65536, 5), false), None);
    assert_eq!(canvas.draw_point(IPoint::new(i32::MAX, i32::MIN), true), None);
}

#[test]
fn draw_point_on_the_largest_canvas() {
    let canvas = Canvas::new(u16::MAX, u16::MAX);
    assert_eq!(canvas.draw_point(IPoint::new(65534, 65534), true), Some(mark(65535, 65535)));
    assert_eq!(canvas.draw_point(IPoint::new(65535, 65535), true), None);
}

#[test]
fn paint_keeps_order_and_drops_what_is_off_the_grid() {
    let canvas = Canvas::new(3, 4);
    let cells = vec![
        IPoint::new(3, 2),
        IPoint::new(4, 2),
        IPoint::new(0, 0),
        IPoint::new(-1, 1),
        IPoint::new(0, 0),
        IPoint::new(1, 3),
    ];
    assert_eq!(canvas.paint(&cells), vec![mark(4, 3), mark(1, 1), mark(1, 1)]);
    assert_eq!(canvas.clear(&cells), vec![blank(4, 3), blank(1, 1), blank(1, 1)]);
    assert_eq!(canvas.draw_cells(&cells, true), canvas.paint(&cells));
    assert_eq!(canvas.draw_cells(&cells, false), canvas.clear(&cells));
}

#[test]
fn every_request_addresses_a_cell_of_the_grid() {
    let canvas = Canvas::new(7, 9);
    let mut cells = Vec::new();
    for x in -3..13 {
        for y in -3..11 {
            cells.push(IPoint::new(x, y));
        }
    }
    let ops = canvas.paint(&cells);
    assert_eq!(ops.len(), 7 * 9);
    for op in ops.iter().chain(canvas.clear(&cells).iter()) {
        assert!(1 <= op.col && op.col <= 9);
        assert!(1 <= op.row && op.row <= 7);
        assert!(cells.contains(&IPoint::new(op.col as i32 - 1, op.row as i32 - 1)));
    }
}

#[test]
fn draw_segment_clips_the_line() {
    let canvas = Canvas::new(5, 5);
    let seg = ISegment::new(IPoint::new(3, 2), IPoint::new(7, 2));
    assert_eq!(canvas.draw_segment(&seg, true), vec![mark(4, 3), mark(5, 3)]);
    assert_eq!(canvas.draw_segment(&seg, false), vec![blank(4, 3), blank(5, 3)]);
}

#[test]
fn request_text_moves_the_cursor_and_writes_the_glyph() {
    assert_eq!(mark(5, 3).text(), "\x1b[3;5H#");
    assert_eq!(blank(5, 3).text(), "\x1b[3;5H ");
    assert_eq!(mark(1, 1).text(), "\x1b[1;1H#");
    assert_eq!(mark(80, 24).text(), "\x1b[24;80H#");
    assert_eq!(blank(65535, 100).text(), "\x1b[100;65535H ");
}

#[test]
fn glyph_of_presence() {
    assert_eq!(Glyph::of(true), Glyph::Mark);
    assert_eq!(Glyph::of(false), Glyph::Blank);
}

#[test]
fn erasing_after_painting_leaves_the_screen_blank() {
    let canvas = Canvas::new(6, 10);
    let cells = vec![
        IPoint::new(2, 2),
        IPoint::new(3, 2),
        IPoint::new(12, 2),
        IPoint::new(3, 2),
        IPoint::new(9, 5),
        IPoint::new(2, -1),
    ];
    let mut screen: HashMap<(u16, u16), char> = HashMap::new();
    for col in 1..=10 {
        for row in 1..=6 {
            screen.insert((col, row), ' ');
        }
    }
    let untouched = screen.clone();
    carry_out(&mut screen, &canvas.paint(&cells));
    assert_eq!(screen[&(3, 3)], '#');
    assert_eq!(screen[&(4, 3)], '#');
    assert_eq!(screen[&(10, 6)], '#');
    assert_eq!(screen.values().filter(|&&c| c == '#').count(), 3);
    carry_out(&mut screen, &canvas.clear(&cells));
    assert_eq!(screen, untouched);
}
