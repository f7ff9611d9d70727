use termbrush::brush::{Brush, OrientedPoint};
use termbrush::canvas::Canvas;
use termbrush::curve::{
    bands, border, border_path, extend_with_heading, unit_range, Band, Cardinal,
};
use termbrush::point::IPoint;
use termbrush::segment::ISegment;

fn seg(a: (i32, i32), b: (i32, i32)) -> ISegment {
    ISegment::new(IPoint::new(a.0, a.1), IPoint::new(b.0, b.1))
}

#[test]
fn cardinal_headings_are_unit_steps() {
    assert_eq!(Cardinal::East.vector(), IPoint::new(1, 0));
    assert_eq!(Cardinal::South.vector(), IPoint::new(0, 1));
    assert_eq!(Cardinal::West.vector(), IPoint::new(-1, 0));
    assert_eq!(Cardinal::North.vector(), IPoint::new(0, -1));
}

#[test]
fn bands_lie_one_width_apart_and_turn_about() {
    let canvas = Canvas::new(30, 80);
    let brush = Brush::new(8, 1).unwrap();
    let expected = vec![
        Band { offset: 0, from: 0, to: 63 },
        Band { offset: 8, from: 79, to: 16 },
        Band { offset: 16, from: 0, to: 63 },
    ];
    assert_eq!(bands(&canvas, &brush), expected);
}

#[test]
fn bands_leave_more_than_a_width_below() {
    let brush = Brush::new(8, 1).unwrap();
    assert_eq!(bands(&Canvas::new(0, 80), &brush).len(), 0);
    assert_eq!(bands(&Canvas::new(8, 80), &brush).len(), 0);
    assert_eq!(bands(&Canvas::new(9, 80), &brush).len(), 1);
    assert_eq!(bands(&Canvas::new(16, 80), &brush).len(), 1);
    assert_eq!(bands(&Canvas::new(17, 80), &brush).len(), 2);
    assert_eq!(bands(&Canvas::new(u16::MAX, 80), &Brush::new(1, 1).unwrap()).len(), 65534);
}

#[test]
fn bands_of_a_narrow_canvas_run_off_the_grid() {
    let brush = Brush::new(8, 1).unwrap();
    let expected = vec![Band { offset: 0, from: 0, to: -7 }, Band { offset: 8, from: 9, to: 16 }];
    assert_eq!(bands(&Canvas::new(20, 10), &brush), expected);
}

#[test]
fn unit_range_counts_up_and_down() {
    assert_eq!(unit_range(2, 6), vec![2, 3, 4, 5, 6]);
    assert_eq!(unit_range(2, -2), vec![2, 1, 0, -1, -2]);
    assert_eq!(unit_range(5, 5), vec![5]);
    assert_eq!(unit_range(i32::MAX - 1, i32::MAX), vec![i32::MAX - 1, i32::MAX]);
    assert_eq!(unit_range(i32::MIN + 1, i32::MIN), vec![i32::MIN + 1, i32::MIN]);
}

#[test]
fn border_runs_round_the_canvas() {
    let expected = vec![
        (seg((0, 20), (0, 0)), Cardinal::East),
        (seg((0, 0), (80, 0)), Cardinal::South),
        (seg((80, 0), (80, 20)), Cardinal::West),
        (seg((80, 20), (0, 20)), Cardinal::North),
    ];
    assert_eq!(border(&Canvas::new(20, 80)), expected);
}

#[test]
fn border_path_of_a_small_canvas() {
    let path = border_path(&Canvas::new(2, 3));
    let east = IPoint::new(1, 0);
    let south = IPoint::new(0, 1);
    let west = IPoint::new(-1, 0);
    let north = IPoint::new(0, -1);
    let expected: Vec<OrientedPoint> = [
        ((0, 2), east),
        ((0, 1), east),
        ((0, 0), east),
        ((0, 0), south),
        ((1, 0), south),
        ((2, 0), south),
        ((3, 0), south),
        ((3, 0), west),
        ((3, 1), west),
        ((3, 2), west),
        ((3, 2), north),
        ((2, 2), north),
        ((1, 2), north),
        ((0, 2), north),
    ]
    .iter()
    .map(|&((x, y), heading)| OrientedPoint { position: IPoint::new(x, y), heading })
    .collect();
    assert_eq!(path, expected);
}

#[test]
fn border_path_strokes_point_into_the_canvas() {
    let canvas = Canvas::new(20, 80);
    let brush = Brush::new(8, 1).unwrap();
    let path = border_path(&canvas);
    assert_eq!(path.len(), 21 + 81 + 21 + 81);
    assert_eq!(brush.stroke(path[0]), seg((0, 20), (8, 20)));
    assert_eq!(brush.stroke(path[21]), seg((0, 0), (0, 8)));
    assert_eq!(brush.stroke(path[21 + 81]), seg((80, 0), (72, 0)));
    assert_eq!(brush.stroke(path[21 + 81 + 21]), seg((80, 20), (80, 12)));
}

#[test]
fn extend_with_heading_appends_in_order() {
    let mut path = vec![OrientedPoint { position: IPoint::new(9, 9), heading: IPoint::new(1, 0) }];
    extend_with_heading(&mut path, &vec![IPoint::new(1, 2), IPoint::new(3, 4)], Cardinal::South);
    let expected = vec![
        OrientedPoint { position: IPoint::new(9, 9), heading: IPoint::new(1, 0) },
        OrientedPoint { position: IPoint::new(1, 2), heading: IPoint::new(0, 1) },
        OrientedPoint { position: IPoint::new(3, 4), heading: IPoint::new(0, 1) },
    ];
    assert_eq!(path, expected);
}
