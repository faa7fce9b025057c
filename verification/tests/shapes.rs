use tft_lcd::bus::BusOp;
use tft_lcd::lcd::{Direction, LCD};

/// The points a transcript of single-pixel plots paints, in panel
/// coordinates of a horizontal mounting, with the colour of each.
fn plotted(ops: &[BusOp]) -> Vec<(u16, u16, u16)> {
    assert_eq!(ops.len() % 24, 0);
    let mut points = Vec::new();
    for plot in ops.chunks(24) {
        assert_eq!(plot[2], BusOp::Write8(vec![0x2a]));
        assert_eq!(plot[10], BusOp::Write8(vec![0x2b]));
        assert_eq!(plot[18], BusOp::Write8(vec![0x2c]));
        let (x, y) = match (&plot[6], &plot[14]) {
            (BusOp::Write16(cols), BusOp::Write16(rows)) => {
                assert_eq!(cols[0], cols[1]);
                assert_eq!(rows[0], rows[1]);
                (cols[0], rows[0].wrapping_sub(24))
            }
            _ => panic!("a plot carries two address ranges"),
        };
        let color = match &plot[22] {
            BusOp::Write16(words) => {
                assert_eq!(words.len(), 1);
                words[0]
            }
            _ => panic!("a plot ends with its pixel"),
        };
        points.push((x, y, color));
    }
    points
}

fn line(x1: u16, y1: u16, x2: u16, y2: u16) -> Vec<(u16, u16)> {
    let mut lcd = LCD::new(Direction::Horizontal0);
    lcd.draw_line(x1, y1, x2, y2, 9);
    plotted(&lcd.take_ops()).into_iter().map(|(x, y, c)| {
        assert_eq!(c, 9);
        (x, y)
    }).collect()
}

#[test]
fn line_with_equal_ends_is_one_point() {
    assert_eq!(line(3, 4, 3, 4), vec![(3, 4)]);
    assert_eq!(line(0, 0, 0, 0), vec![(0, 0)]);
    assert_eq!(line(65535, 65511, 65535, 65511), vec![(65535, 65511)]);
}

#[test]
fn line_with_equal_ends_is_the_same_as_draw_point() {
    let mut by_line = LCD::new(Direction::Vertical1);
    by_line.draw_line(12, 34, 12, 34, 0xF81F);
    let mut by_point = LCD::new(Direction::Vertical1);
    by_point.draw_point(12, 34, 0xF81F);
    assert_eq!(by_line.take_ops(), by_point.take_ops());
}

#[test]
fn horizontal_line_runs_from_its_start_to_its_end() {
    assert_eq!(line(0, 0, 3, 0), vec![(0, 0), (1, 0), (2, 0), (3, 0)]);
}

#[test]
fn vertical_line() {
    assert_eq!(line(5, 1, 5, 4), vec![(5, 1), (5, 2), (5, 3), (5, 4)]);
}

#[test]
fn line_towards_smaller_coordinates() {
    assert_eq!(line(3, 0, 0, 0), vec![(3, 0), (2, 0), (1, 0), (0, 0)]);
    assert_eq!(line(5, 4, 5, 1), vec![(5, 4), (5, 3), (5, 2), (5, 1)]);
}

#[test]
fn shallow_line_steps_its_short_axis_later() {
    assert_eq!(line(0, 0, 4, 2), vec![(0, 0), (1, 0), (2, 1), (3, 1), (4, 2)]);
}

#[test]
fn steep_line_towards_the_upper_left() {
    assert_eq!(line(10, 10, 8, 6), vec![(10, 10), (10, 9), (9, 8), (9, 7), (8, 6)]);
}

#[test]
fn diagonal_line() {
    assert_eq!(line(1, 1, 4, 4), vec![(1, 1), (2, 2), (3, 3), (4, 4)]);
}

#[test]
fn line_has_one_point_more_than_its_longer_extent() {
    assert_eq!(line(0, 0, 159, 79).len(), 160);
    assert_eq!(line(7, 70, 9, 2).len(), 69);
    assert_eq!(line(0, 0, 65535, 0).len(), 65536);
}

#[test]
fn long_line_stays_between_its_ends() {
    let points = line(100, 3, 20, 60);
    assert_eq!(points[0], (100, 3));
    for (x, y) in &points {
        assert!((20..=100).contains(x));
        assert!((3..=60).contains(y));
    }
    for pair in points.windows(2) {
        assert!(pair[1].0 == pair[0].0 || pair[1].0 + 1 == pair[0].0);
        assert!(pair[1].1 == pair[0].1 || pair[1].1 == pair[0].1 + 1);
    }
    assert_eq!(points[points.len() - 1], (20, 60));
}

#[test]
fn rectangle_is_top_left_bottom_right() {
    let mut lcd = LCD::new(Direction::Horizontal0);
    lcd.draw_rectangle(1, 2, 4, 6, 9);
    let outline = lcd.take_ops();
    let mut lines = LCD::new(Direction::Horizontal0);
    lines.draw_line(1, 2, 4, 2, 9);
    lines.draw_line(1, 2, 1, 6, 9);
    lines.draw_line(1, 6, 4, 6, 9);
    lines.draw_line(4, 2, 4, 6, 9);
    assert_eq!(outline, lines.take_ops());
    let points = plotted(&outline);
    assert_eq!(points.len(), 4 + 5 + 4 + 5);
    assert_eq!(&points[..4], &[(1, 2, 9), (2, 2, 9), (3, 2, 9), (4, 2, 9)]);
    assert_eq!(&points[4..9], &[(1, 2, 9), (1, 3, 9), (1, 4, 9), (1, 5, 9), (1, 6, 9)]);
    assert_eq!(&points[9..13], &[(1, 6, 9), (2, 6, 9), (3, 6, 9), (4, 6, 9)]);
    assert_eq!(&points[13..], &[(4, 2, 9), (4, 3, 9), (4, 4, 9), (4, 5, 9), (4, 6, 9)]);
}

fn times(points: &[(u16, u16, u16)], x: u16, y: u16) -> usize {
    points.iter().filter(|p| p.0 == x && p.1 == y).count()
}

#[test]
fn rectangle_draws_each_corner_twice() {
    for (x1, y1, x2, y2) in [(0u16, 0u16, 1u16, 1u16), (1, 2, 4, 6), (10, 3, 150, 70), (0, 0, 1, 9)] {
        let mut lcd = LCD::new(Direction::Horizontal0);
        lcd.draw_rectangle(x1, y1, x2, y2, 7);
        let points = plotted(&lcd.take_ops());
        for (x, y) in [(x1, y1), (x2, y1), (x1, y2), (x2, y2)] {
            assert_eq!(times(&points, x, y), 2);
        }
        assert_eq!(times(&points, x1 + 1, y1), if x2 - x1 > 1 { 1 } else { 2 });
        assert_eq!(times(&points, x1, y1 + 1), if y2 - y1 > 1 { 1 } else { 2 });
    }
}

#[test]
fn smallest_rectangle_is_its_four_corners_twice() {
    let mut lcd = LCD::new(Direction::Horizontal0);
    lcd.draw_rectangle(0, 0, 1, 1, 7);
    assert_eq!(
        plotted(&lcd.take_ops()),
        vec![
            (0, 0, 7),
            (1, 0, 7),
            (0, 0, 7),
            (0, 1, 7),
            (0, 1, 7),
            (1, 1, 7),
            (1, 0, 7),
            (1, 1, 7),
        ]
    );
}

#[test]
fn line_ends_at_its_second_end_point() {
    for (x1, y1, x2, y2) in [(0u16, 0u16, 159u16, 79u16), (7, 70, 9, 2), (100, 3, 20, 60), (5, 5, 6, 5), (65535, 0, 0, 65511)] {
        let points = line(x1, y1, x2, y2);
        assert_eq!(points[0], (x1, y1));
        assert_eq!(points[points.len() - 1], (x2, y2));
    }
}

#[test]
fn rectangle_of_one_point_draws_it_four_times() {
    let mut lcd = LCD::new(Direction::Horizontal0);
    lcd.draw_rectangle(8, 8, 8, 8, 1);
    assert_eq!(plotted(&lcd.take_ops()), vec![(8, 8, 1); 4]);
}

fn circle(x0: u16, y0: u16, r: u8) -> Vec<(u16, u16)> {
    let mut lcd = LCD::new(Direction::Horizontal0);
    lcd.draw_circle(x0, y0, r, 5);
    plotted(&lcd.take_ops()).into_iter().map(|(x, y, c)| {
        assert_eq!(c, 5);
        (x, y)
    }).collect()
}

fn octants(x0: u16, y0: u16, a: u16, b: u16) -> Vec<(u16, u16)> {
    vec![
        (x0.wrapping_sub(b), y0.wrapping_sub(a)),
        (x0.wrapping_add(b), y0.wrapping_sub(a)),
        (x0.wrapping_sub(a), y0.wrapping_add(b)),
        (x0.wrapping_sub(a), y0.wrapping_sub(b)),
        (x0.wrapping_add(b), y0.wrapping_add(a)),
        (x0.wrapping_add(a), y0.wrapping_sub(b)),
        (x0.wrapping_add(a), y0.wrapping_add(b)),
        (x0.wrapping_sub(b), y0.wrapping_add(a)),
    ]
}

#[test]
fn circle_of_radius_zero_is_its_centre_eight_times() {
    assert_eq!(circle(40, 30, 0), vec![(40, 30); 8]);
}

#[test]
fn circle_of_radius_one() {
    assert_eq!(circle(40, 30, 1), octants(40, 30, 0, 1));
}

#[test]
fn circle_of_radius_five_walks_to_the_diagonal() {
    let mut expected = Vec::new();
    for (a, b) in [(0u16, 5u16), (1, 4), (2, 4), (3, 4)] {
        expected.extend(octants(50, 40, a, b));
    }
    assert_eq!(circle(50, 40, 5), expected);
}

#[test]
fn circle_coordinates_wrap_at_the_edge() {
    let points = circle(0, 0, 2);
    let mut expected = octants(0, 0, 0, 2);
    expected.extend(octants(0, 0, 1, 1));
    assert_eq!(points, expected);
    assert_eq!(points[0], (65534, 0));
    assert_eq!(points[3], (0, 65534));
}

#[test]
fn circle_points_lie_on_the_rim_in_every_octant() {
    for r in [0u8, 1, 2, 3, 7, 10, 31, 100, 255] {
        let x0 = 1000u16;
        let y0 = 2000u16;
        let points = circle(x0, y0, r);
        assert_eq!(points.len() % 8, 0);
        let rr = r as i64 * r as i64;
        for (step, group) in points.chunks(8).enumerate() {
            let a = step as i64;
            let b = group[6].1 as i64 - y0 as i64;
            assert_eq!(group[6].0 as i64 - x0 as i64, a);
            assert!(a <= b);
            assert!(a * a + b * b <= rr);
            assert!(rr < a * a + (b + 1) * (b + 1));
            assert_eq!(group, &octants(x0, y0, a as u16, b as u16)[..]);
        }
        let steps = (points.len() / 8) as i64;
        assert!(2 * (steps - 1) * (steps - 1) <= rr);
        assert!(2 * steps * steps > rr);
    }
}
