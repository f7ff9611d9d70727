use termbrush::brush::{Brush, OrientedPoint};
use termbrush::point::IPoint;
use termbrush::segment::ISegment;

fn at(x: i32, y: i32, hx: i32, hy: i32) -> OrientedPoint {
    OrientedPoint { position: IPoint::new(x, y), heading: IPoint::new(hx, hy) }
}

#[test]
fn brush_needs_a_width_and_a_deformation() {
    assert_eq!(Brush::new(0, 1), None);
    assert_eq!(Brush::new(8, 0), None);
    assert_eq!(Brush::new(0, 0), None);
    assert_eq!(Brush::new(8, 2), Some(Brush { width: 8, deformation: 2 }));
}

#[test]
fn brush_reaches_half_its_width_times_its_deformation() {
    assert_eq!(Brush::new(6, 1).unwrap().half_steps(), 3);
    assert_eq!(Brush::new(7, 1).unwrap().half_steps(), 3);
    assert_eq!(Brush::new(8, 3).unwrap().half_steps(), 12);
    assert_eq!(Brush::new(1, 5).unwrap().half_steps(), 0);
    assert_eq!(Brush::new(u16::MAX, u16::MAX).unwrap().half_steps(), 32767 * 65535);
}

#[test]
fn footprint_along_an_axis() {
    let brush = Brush::new(6, 1).unwrap();
    let cells = brush.footprint(at(10, 5, 0, 1));
    let expected: Vec<IPoint> = [(10, 5), (10, 5), (10, 6), (10, 4), (10, 7), (10, 3)]
        .iter()
        .map(|&(x, y)| IPoint::new(x, y))
        .collect();
    assert_eq!(cells, expected);
}

#[test]
fn footprint_along_a_diagonal() {
    let brush = Brush::new(4, 2).unwrap();
    // steps of 0, 0.707, 1.414, 2.121 along each axis
    let cells = brush.footprint(at(0, 0, 1, -1));
    let expected: Vec<IPoint> =
        [(0, 0), (0, 0), (0, 0), (0, 0), (1, -1), (-1, 1), (2, -2), (-2, 2)]
            .iter()
            .map(|&(x, y)| IPoint::new(x, y))
            .collect();
    assert_eq!(cells, expected);
}

#[test]
fn footprint_is_symmetric_about_its_centre() {
    let brush = Brush::new(9, 3).unwrap();
    for &(hx, hy) in [(1, 0), (3, 4), (-5, 2), (0, -7), (-1, -1), (100, 1), (0, 0)].iter() {
        let centre = IPoint::new(40, -12);
        let cells = brush.footprint(OrientedPoint { position: centre, heading: IPoint::new(hx, hy) });
        assert_eq!(cells.len(), 24);
        for s in 0..12 {
            let ahead = cells[2 * s] - centre;
            let behind = cells[2 * s + 1] - centre;
            assert_eq!(behind, IPoint::new(-ahead.x, -ahead.y));
            assert!(ahead.x.abs() <= s as i32 && ahead.y.abs() <= s as i32);
        }
    }
}

#[test]
fn footprint_of_a_brush_without_reach_is_empty() {
    let brush = Brush::new(1, 4).unwrap();
    assert_eq!(brush.footprint(at(3, 3, 1, 0)), Vec::<IPoint>::new());
}

#[test]
fn stroke_is_as_long_as_the_brush_is_wide() {
    let brush = Brush::new(8, 1).unwrap();
    assert_eq!(
        brush.stroke(at(5, 5, 0, 1)),
        ISegment::new(IPoint::new(5, 5), IPoint::new(5, 13))
    );
    assert_eq!(
        brush.stroke(at(5, 5, -1, 0)),
        ISegment::new(IPoint::new(5, 5), IPoint::new(-3, 5))
    );
    assert_eq!(
        brush.stroke(at(0, 0, 3, 4)),
        ISegment::new(IPoint::new(0, 0), IPoint::new(4, 6))
    );
}

#[test]
fn step_along_a_heading() {
    let p = IPoint::new(1, 1);
    assert_eq!(p.step_along(IPoint::new(3, 4), 5), IPoint::new(4, 5));
    assert_eq!(p.step_along(IPoint::new(3, 4), 4), IPoint::new(3, 4));
    assert_eq!(p.step_along(IPoint::new(-3, 4), 4), IPoint::new(-1, 4));
    assert_eq!(p.step_along(IPoint::new(0, 0), 4), p);
    assert_eq!(p.step_along(IPoint::new(0, -9), 0), p);
}
