use termbrush::brush::{Brush, OrientedPoint};
use termbrush::canvas::Canvas;
use termbrush::point::IPoint;
use termbrush::scan::{
    border_trace, get_key_points, line_path, passes, scan_legs, turn_angles, PathError, ScanLeg,
    Turn, TURN_STEP_DEGREES,
};
use termbrush::segment::ISegment;

fn seg(a: (i32, i32), b: (i32, i32)) -> ISegment {
    ISegment::new(IPoint::new(a.0, a.1), IPoint::new(b.0, b.1))
}

#[test]
fn canvas_of_twenty_rows_has_two_passes() {
    let canvas = Canvas::new(20, 80);
    let brush = Brush::new(6, 1).unwrap();
    assert_eq!(passes(&canvas, &brush), Ok(2));
    assert_eq!(get_key_points(&canvas, &brush).unwrap().len(), 2);
}

#[test]
fn pass_count_follows_the_formula() {
    let brush = Brush::new(6, 1).unwrap();
    assert_eq!(passes(&Canvas::new(9, 80), &brush), Ok(1));
    assert_eq!(passes(&Canvas::new(14, 80), &brush), Ok(1));
    assert_eq!(passes(&Canvas::new(15, 80), &brush), Ok(2));
    assert_eq!(passes(&Canvas::new(21, 80), &brush), Ok(3));
    let odd = Brush::new(5, 1).unwrap();
    assert_eq!(passes(&Canvas::new(8, 80), &odd), Ok(1));
    assert_eq!(passes(&Canvas::new(12, 80), &odd), Ok(1));
    assert_eq!(passes(&Canvas::new(13, 80), &odd), Ok(2));
    let thin = Brush::new(1, 1).unwrap();
    assert_eq!(passes(&Canvas::new(u16::MAX, 1), &thin), Ok(65534));
    assert_eq!(passes(&Canvas::new(2, 1), &thin), Ok(1));
}

#[test]
fn canvas_lower_than_one_pass_is_refused() {
    let brush = Brush::new(6, 1).unwrap();
    for rows in 0..9 {
        let canvas = Canvas::new(rows, 80);
        assert_eq!(passes(&canvas, &brush), Err(PathError::UnsupportedCanvasSize));
        assert_eq!(get_key_points(&canvas, &brush), Err(PathError::UnsupportedCanvasSize));
        assert_eq!(scan_legs(&canvas, &brush), Err(PathError::UnsupportedCanvasSize));
    }
    let odd = Brush::new(5, 1).unwrap();
    assert_eq!(passes(&Canvas::new(7, 80), &odd), Err(PathError::UnsupportedCanvasSize));
    let thin = Brush::new(1, 1).unwrap();
    assert_eq!(passes(&Canvas::new(1, 80), &thin), Err(PathError::UnsupportedCanvasSize));
}

#[test]
fn higher_canvas_has_no_fewer_passes() {
    let brush = Brush::new(4, 2).unwrap();
    let mut last = 0;
    for rows in 6..200 {
        let count = passes(&Canvas::new(rows, 80), &brush).unwrap();
        assert!(count >= last);
        assert_eq!(count as i32, (2 * rows as i32 - 12).div_euclid(8) + 1);
        last = count;
    }
}

#[test]
fn key_points_of_a_small_canvas() {
    let canvas = Canvas::new(20, 80);
    let brush = Brush::new(6, 1).unwrap();
    let expected = vec![
        (seg((3, 3), (76, 3)), seg((76, 9), (3, 9))),
        (seg((3, 9), (76, 9)), seg((76, 15), (3, 15))),
    ];
    assert_eq!(get_key_points(&canvas, &brush), Ok(expected));
}

#[test]
fn key_points_keep_the_margin_of_a_deformed_brush() {
    let canvas = Canvas::new(12, 40);
    let brush = Brush::new(8, 2).unwrap();
    let expected = vec![(seg((8, 4), (31, 4)), seg((31, 12), (8, 12)))];
    assert_eq!(get_key_points(&canvas, &brush), Ok(expected));
}

#[test]
fn scan_legs_join_the_strokes_of_a_pass_by_a_turn() {
    let canvas = Canvas::new(20, 80);
    let brush = Brush::new(6, 1).unwrap();
    let expected = vec![
        ScanLeg::Line(seg((3, 3), (76, 3))),
        ScanLeg::Turn(Turn { center: IPoint::new(76, 6), radius: 3, start: -90, sweep: 180 }),
        ScanLeg::Line(seg((76, 9), (3, 9))),
        ScanLeg::Line(seg((3, 9), (76, 9))),
        ScanLeg::Turn(Turn { center: IPoint::new(76, 12), radius: 3, start: 270, sweep: -180 }),
        ScanLeg::Line(seg((76, 15), (3, 15))),
    ];
    assert_eq!(scan_legs(&canvas, &brush), Ok(expected));
    assert_eq!(TURN_STEP_DEGREES, 5);
}

#[test]
fn line_path_heads_from_start_to_end() {
    let path = line_path(&seg((5, 2), (2, 2)));
    let heading = IPoint::new(-3, 0);
    let expected: Vec<OrientedPoint> = [(5, 2), (4, 2), (3, 2), (2, 2)]
        .iter()
        .map(|&(x, y)| OrientedPoint { position: IPoint::new(x, y), heading })
        .collect();
    assert_eq!(path, expected);
}

#[test]
fn turn_is_sampled_every_five_degrees() {
    let right = Turn { center: IPoint::new(0, 0), radius: 4, start: -90, sweep: 180 };
    let angles = turn_angles(&right);
    assert_eq!(angles.len(), 37);
    assert_eq!(angles[0], -90);
    assert_eq!(angles[1], -85);
    assert_eq!(angles[18], 0);
    assert_eq!(angles[36], 90);
    let left = Turn { center: IPoint::new(0, 0), radius: 4, start: 270, sweep: -180 };
    let angles = turn_angles(&left);
    assert_eq!(angles.len(), 37);
    assert_eq!(angles[0], 270);
    assert_eq!(angles[1], 265);
    assert_eq!(angles[36], 90);
    let quarter = Turn { center: IPoint::new(0, 0), radius: 4, start: 180, sweep: 90 };
    assert_eq!(
        turn_angles(&quarter),
        vec![180, 185, 190, 195, 200, 205, 210, 215, 220, 225, 230, 235, 240, 245, 250, 255, 260, 265, 270]
    );
}

#[test]
fn turn_angles_at_the_limits() {
    let none = Turn { center: IPoint::new(0, 0), radius: 4, start: 30, sweep: 0 };
    assert_eq!(turn_angles(&none), vec![30]);
    let short = Turn { center: IPoint::new(0, 0), radius: 4, start: 30, sweep: -4 };
    assert_eq!(turn_angles(&short), vec![30]);
    let odd = Turn { center: IPoint::new(0, 0), radius: 4, start: 30, sweep: 12 };
    assert_eq!(turn_angles(&odd), vec![30, 35, 40]);
    let wide = Turn { center: IPoint::new(0, 0), radius: 4, start: i16::MAX, sweep: i16::MAX };
    let angles = turn_angles(&wide);
    assert_eq!(angles.len(), 6554);
    assert_eq!(angles[6553], 32767 + 5 * 6553);
    let back = Turn { center: IPoint::new(0, 0), radius: 4, start: i16::MIN, sweep: i16::MIN };
    let angles = turn_angles(&back);
    assert_eq!(angles.len(), 6554);
    assert_eq!(angles[6553], -32768 - 5 * 6553);
}

#[test]
fn border_trace_rounds_the_corners() {
    let canvas = Canvas::new(20, 80);
    let brush = Brush::new(6, 1).unwrap();
    let expected = vec![
        ScanLeg::Line(seg((0, 17), (0, 3))),
        ScanLeg::Turn(Turn { center: IPoint::new(3, 3), radius: 3, start: 180, sweep: 90 }),
        ScanLeg::Line(seg((3, 0), (77, 0))),
        ScanLeg::Turn(Turn { center: IPoint::new(77, 3), radius: 3, start: 270, sweep: 90 }),
        ScanLeg::Line(seg((80, 3), (80, 17))),
        ScanLeg::Turn(Turn { center: IPoint::new(77, 17), radius: 3, start: 0, sweep: 90 }),
        ScanLeg::Line(seg((77, 20), (3, 20))),
        ScanLeg::Turn(Turn { center: IPoint::new(3, 17), radius: 3, start: 90, sweep: 90 }),
    ];
    assert_eq!(border_trace(&canvas, &brush), expected);
}

#[test]
fn border_trace_of_a_canvas_without_cells() {
    let brush = Brush::new(9, 1).unwrap();
    let legs = border_trace(&Canvas::new(0, 0), &brush);
    assert_eq!(legs.len(), 8);
    assert_eq!(legs[0], ScanLeg::Line(seg((0, -4), (0, 4))));
    assert_eq!(
        legs[5],
        ScanLeg::Turn(Turn { center: IPoint::new(-4, -4), radius: 4, start: 0, sweep: 90 })
    );
}
