//! Geometric primitives: lines by integer error accumulation, rectangle
//! outlines, and circles by the midpoint method.

use crate::bus::{lemma_append_assoc, BusEvent};
use crate::lcd::{offset, point_events, wrap_add, Direction, LCD};
use vstd::arithmetic::div_mod::lemma_fundamental_div_mod_converse;
use vstd::prelude::*;

verus! {

/// Distance between two coordinates.
pub open spec fn gap(from: u16, to: u16) -> nat {
    if to >= from {
        (to - from) as nat
    } else {
        (from - to) as nat
    }
}

/// Number of points a line is drawn with, less one: the longer of its two
/// extents.
pub open spec fn line_distance(x1: u16, y1: u16, x2: u16, y2: u16) -> nat {
    if gap(x1, x2) >= gap(y1, y2) {
        gap(x1, x2)
    } else {
        gap(y1, y2)
    }
}

/// Unit steps an axis of extent `delta` has taken after `rounds` rounds of
/// a line of the given distance.
///
/// Each round the axis gains `delta` of error, and steps once if the error
/// then exceeds the distance.
pub open spec fn steps_taken(rounds: nat, delta: nat, distance: nat) -> nat {
    if rounds * delta == 0 {
        0
    } else {
        ((rounds * delta - 1) / (distance as int)) as nat
    }
}

/// Where an axis stands after `rounds` rounds on its way from `from` to
/// `to`.
pub open spec fn axis_after(from: u16, to: u16, rounds: nat, distance: nat) -> int {
    if to >= from {
        from + steps_taken(rounds, gap(from, to), distance)
    } else {
        from - steps_taken(rounds, gap(from, to), distance)
    }
}

/// Coordinate of point `k` of a line on one axis. A point is drawn at the
/// end of its round: the error is accumulated and the axis stepped first.
pub open spec fn line_coord(from: u16, to: u16, k: nat, distance: nat) -> int {
    axis_after(from, to, k + 1, distance)
}

/// Point `k` of the line from `(x1, y1)` to `(x2, y2)`.
pub open spec fn line_point(x1: u16, y1: u16, x2: u16, y2: u16, k: nat) -> (u16, u16) {
    let distance = line_distance(x1, y1, x2, y2);
    (line_coord(x1, x2, k, distance) as u16, line_coord(y1, y2, k, distance) as u16)
}

/// The points of the line from `(x1, y1)` to `(x2, y2)`, in the order they
/// are drawn: one per unit of the longer extent, and one more.
pub open spec fn line_points(x1: u16, y1: u16, x2: u16, y2: u16) -> Seq<(u16, u16)> {
    Seq::new(
        line_distance(x1, y1, x2, y2) + 1,
        |k: int| line_point(x1, y1, x2, y2, k as nat),
    )
}

/// The points of the outline of the rectangle with corners `(x1, y1)` and
/// `(x2, y2)`: its top, left, bottom and right edge, each a line.
pub open spec fn rectangle_points(x1: u16, y1: u16, x2: u16, y2: u16) -> Seq<(u16, u16)> {
    line_points(x1, y1, x2, y1) + line_points(x1, y1, x1, y2) + line_points(x1, y2, x2, y2)
        + line_points(x2, y1, x2, y2)
}

/// Events that paint the points one after the other in one colour.
pub open spec fn plot_events(d: Direction, points: Seq<(u16, u16)>, color: u16) -> Seq<BusEvent>
    decreases points.len(),
{
    if points.len() == 0 {
        Seq::empty()
    } else {
        plot_events(d, points.drop_last(), color) + point_events(
            d,
            points.last().0,
            points.last().1,
            color,
        )
    }
}

/// How often a point occurs among the points.
pub open spec fn times_plotted(points: Seq<(u16, u16)>, p: (u16, u16)) -> nat
    decreases points.len(),
{
    if points.len() == 0 {
        0
    } else {
        times_plotted(points.drop_last(), p) + if points.last() == p {
            1nat
        } else {
            0nat
        }
    }
}

/// Painting two runs of points in a row is painting their concatenation.
pub proof fn lemma_plot_concat(d: Direction, a: Seq<(u16, u16)>, b: Seq<(u16, u16)>, color: u16)
    ensures
        plot_events(d, a + b, color) == plot_events(d, a, color) + plot_events(d, b, color),
    decreases b.len(),
{
    if b.len() == 0 {
        assert(a + b =~= a);
        assert(plot_events(d, a, color) + plot_events(d, b, color) =~= plot_events(d, a, color));
    } else {
        assert((a + b).drop_last() =~= a + b.drop_last());
        lemma_plot_concat(d, a, b.drop_last(), color);
        lemma_append_assoc(
            plot_events(d, a, color),
            plot_events(d, b.drop_last(), color),
            point_events(d, b.last().0, b.last().1, color),
        );
    }
}

/// A point occurs in a concatenation as often as in its two parts together.
pub proof fn lemma_times_concat(a: Seq<(u16, u16)>, b: Seq<(u16, u16)>, p: (u16, u16))
    ensures
        times_plotted(a + b, p) == times_plotted(a, p) + times_plotted(b, p),
    decreases b.len(),
{
    if b.len() == 0 {
        assert(a + b =~= a);
    } else {
        assert((a + b).drop_last() =~= a + b.drop_last());
        lemma_times_concat(a, b.drop_last(), p);
    }
}

/// A point that is at no position occurs zero times.
pub proof fn lemma_times_never(points: Seq<(u16, u16)>, p: (u16, u16))
    requires
        forall|i: int| 0 <= i < points.len() ==> points[i] != p,
    ensures
        times_plotted(points, p) == 0,
    decreases points.len(),
{
    if points.len() > 0 {
        lemma_times_never(points.drop_last(), p);
    }
}

/// A point that is at one position and no other occurs once.
pub proof fn lemma_times_once(points: Seq<(u16, u16)>, p: (u16, u16), j: int)
    requires
        0 <= j < points.len(),
        points[j] == p,
        forall|i: int| 0 <= i < points.len() && i != j ==> points[i] != p,
    ensures
        times_plotted(points, p) == 1,
    decreases points.len(),
{
    if j == points.len() - 1 {
        lemma_times_never(points.drop_last(), p);
    } else {
        lemma_times_once(points.drop_last(), p, j);
    }
}

/// One more point on an axis: how the step count follows the error term.
pub proof fn lemma_axis_step(k: nat, delta: nat, distance: nat, err: int)
    requires
        delta <= distance,
        k <= distance,
        err == k * delta - steps_taken(k, delta, distance) * distance,
        0 <= err <= distance,
        k * delta > 0 ==> err >= 1,
    ensures
        steps_taken(k + 1, delta, distance) == steps_taken(k, delta, distance) + if err + delta
            > distance {
            1nat
        } else {
            0nat
        },
        steps_taken(k + 1, delta, distance) <= delta,
        (k + 1) * delta > 0 ==> err + delta >= 1,
        (k + 1) * delta == k * delta + delta,
{
    let s = steps_taken(k, delta, distance);
    assert((k + 1) * delta == k * delta + delta) by (nonlinear_arith);
    assert(k * delta >= 0) by (nonlinear_arith)
        requires
            k >= 0,
            delta >= 0,
    ;
    if delta == 0 {
        assert(k * delta == 0) by (nonlinear_arith)
            requires
                delta == 0,
        ;
    } else {
        let total = (k + 1) * delta;
        let s2: int = if err + delta > distance {
            (s + 1) as int
        } else {
            s as int
        };
        let e2: int = if err + delta > distance {
            err + delta - distance
        } else {
            err + delta
        };
        assert(total - 1 == s2 * distance + (e2 - 1)) by (nonlinear_arith)
            requires
                total == k * delta + delta,
                err == k * delta - s * distance,
                (s2 == s + 1 && e2 == err + delta - distance) || (s2 == s && e2 == err + delta),
        ;
        lemma_fundamental_div_mod_converse(total - 1, distance as int, s2, e2 - 1);
        assert(s2 <= delta) by (nonlinear_arith)
            requires
                total - 1 == s2 * distance + (e2 - 1),
                e2 >= 1,
                total == (k + 1) * delta,
                k + 1 <= distance + 1,
                delta <= distance,
                delta >= 1,
                s2 >= 0,
        ;
    }
}

/// An axis starts at its first coordinate, ends at its last, and stays
/// between the two.
pub proof fn lemma_axis_ends(from: u16, to: u16, distance: nat)
    requires
        gap(from, to) <= distance,
    ensures
        line_coord(from, to, 0, distance) == from,
        line_coord(from, to, distance, distance) == to,
        forall|k: nat|
            k <= distance ==> #[trigger] steps_taken(k + 1, gap(from, to), distance) <= gap(
                from,
                to,
            ),
{
    let delta = gap(from, to);
    assert forall|k: nat| k <= distance implies #[trigger] steps_taken(k + 1, delta, distance)
        <= delta by {
        lemma_steps_bounded(k + 1, delta, distance);
    }
    if delta > 0 {
        assert(1 * delta == delta) by (nonlinear_arith);
        lemma_fundamental_div_mod_converse(delta - 1, distance as int, 0, delta - 1);
        assert((distance + 1) * delta - 1 == delta * distance + (delta - 1)) by (nonlinear_arith);
        assert((distance + 1) * delta > 0) by (nonlinear_arith)
            requires
                delta > 0,
                distance >= 0,
        ;
        lemma_fundamental_div_mod_converse(
            (distance + 1) * delta - 1,
            distance as int,
            delta as int,
            delta - 1,
        );
    } else {
        assert(1 * delta == 0) by (nonlinear_arith)
            requires
                delta == 0,
        ;
        assert((distance + 1) * delta == 0) by (nonlinear_arith)
            requires
                delta == 0,
        ;
    }
}

/// Within a line an axis never takes more steps than its extent.
pub proof fn lemma_steps_bounded(rounds: nat, delta: nat, distance: nat)
    requires
        delta <= distance,
        rounds <= distance + 1,
    ensures
        steps_taken(rounds, delta, distance) <= delta,
{
    if rounds * delta != 0 {
        assert(delta > 0 && rounds > 0) by (nonlinear_arith)
            requires
                rounds * delta != 0,
                rounds >= 0,
                delta >= 0,
        ;
        let s = (rounds * delta - 1) / (distance as int);
        vstd::arithmetic::div_mod::lemma_fundamental_div_mod(rounds * delta - 1, distance as int);
        vstd::arithmetic::div_mod::lemma_mod_bound(rounds * delta - 1, distance as int);
        assert(s <= delta) by (nonlinear_arith)
            requires
                rounds * delta - 1 == distance * s + (rounds * delta - 1) % (distance as int),
                0 <= (rounds * delta - 1) % (distance as int),
                rounds <= distance + 1,
                0 < delta <= distance,
        ;
        assert(rounds * delta - 1 >= 0) by (nonlinear_arith)
            requires
                rounds >= 1,
                delta >= 1,
        ;
        vstd::arithmetic::div_mod::lemma_div_pos_is_pos(rounds * delta - 1, distance as int);
    }
}

/// A line starts at its first end point and ends at its second.
pub proof fn lemma_line_ends(x1: u16, y1: u16, x2: u16, y2: u16)
    ensures
        line_points(x1, y1, x2, y2).len() == line_distance(x1, y1, x2, y2) + 1,
        line_points(x1, y1, x2, y2).first() == (x1, y1),
        line_points(x1, y1, x2, y2).last() == (x2, y2),
{
    let distance = line_distance(x1, y1, x2, y2);
    lemma_axis_ends(x1, x2, distance);
    lemma_axis_ends(y1, y2, distance);
}

/// A line whose end points coincide is the single point they name.
pub proof fn lemma_degenerate_line(d: Direction, x: u16, y: u16, color: u16)
    ensures
        line_distance(x, y, x, y) == 0,
        line_points(x, y, x, y) == seq![(x, y)],
        plot_events(d, line_points(x, y, x, y), color) == point_events(d, x, y, color),
{
    lemma_line_ends(x, y, x, y);
    let points = line_points(x, y, x, y);
    assert(points =~= seq![(x, y)]);
    assert(points.drop_last() =~= Seq::<(u16, u16)>::empty());
    assert(plot_events(d, points.drop_last(), color) == Seq::<BusEvent>::empty());
    assert(Seq::<BusEvent>::empty() + point_events(d, x, y, color) =~= point_events(
        d,
        x,
        y,
        color,
    ));
}

/// Along a line that runs parallel to an axis towards larger coordinates,
/// point `k` lies `k` units from the start.
pub proof fn lemma_straight_line(from: u16, to: u16, k: nat)
    requires
        from < to,
        k <= to - from,
    ensures
        line_coord(from, to, k, gap(from, to)) == from + k,
        forall|c: u16| line_coord(c, c, k, gap(from, to)) == c,
{
    let distance = gap(from, to);
    assert((k + 1) * distance - 1 == k * distance + (distance - 1)) by (nonlinear_arith);
    assert((k + 1) * distance > 0) by (nonlinear_arith)
        requires
            distance > 0,
            k >= 0,
    ;
    lemma_fundamental_div_mod_converse(
        (k + 1) * distance - 1,
        distance as int,
        k as int,
        distance - 1,
    );
    assert((k + 1) * 0 == 0) by (nonlinear_arith);
}

/// A horizontal line towards the right holds each point of its row between
/// its ends once, and no other point.
pub proof fn lemma_row_points(x1: u16, x2: u16, y: u16, p: (u16, u16))
    requires
        x1 < x2,
    ensures
        times_plotted(line_points(x1, y, x2, y), p) == if p.1 == y && x1 <= p.0 <= x2 {
            1nat
        } else {
            0nat
        },
{
    let points = line_points(x1, y, x2, y);
    assert forall|k: int| 0 <= k < points.len() implies points[k] == ((x1 + k) as u16, y) by {
        lemma_straight_line(x1, x2, k as nat);
    }
    if p.1 == y && x1 <= p.0 <= x2 {
        lemma_times_once(points, p, p.0 - x1);
    } else {
        lemma_times_never(points, p);
    }
}

/// A vertical line downwards holds each point of its column between its
/// ends once, and no other point.
pub proof fn lemma_column_points(x: u16, y1: u16, y2: u16, p: (u16, u16))
    requires
        y1 < y2,
    ensures
        times_plotted(line_points(x, y1, x, y2), p) == if p.0 == x && y1 <= p.1 <= y2 {
            1nat
        } else {
            0nat
        },
{
    let points = line_points(x, y1, x, y2);
    assert forall|k: int| 0 <= k < points.len() implies points[k] == (x, (y1 + k) as u16) by {
        lemma_straight_line(y1, y2, k as nat);
    }
    if p.0 == x && y1 <= p.1 <= y2 {
        lemma_times_once(points, p, p.1 - y1);
    } else {
        lemma_times_never(points, p);
    }
}

/// How often the outline of a rectangle with `x1 < x2` and `y1 < y2` holds a
/// point: twice if it is a corner, once if it lies elsewhere on an edge,
/// and not at all otherwise.
pub proof fn lemma_rectangle_points(x1: u16, y1: u16, x2: u16, y2: u16, p: (u16, u16))
    requires
        x1 < x2,
        y1 < y2,
    ensures
        times_plotted(rectangle_points(x1, y1, x2, y2), p) == (if (p.1 == y1 || p.1 == y2) && x1
            <= p.0 <= x2 {
            1nat
        } else {
            0nat
        }) + (if (p.0 == x1 || p.0 == x2) && y1 <= p.1 <= y2 {
            1nat
        } else {
            0nat
        }),
{
    let top = line_points(x1, y1, x2, y1);
    let left = line_points(x1, y1, x1, y2);
    let bottom = line_points(x1, y2, x2, y2);
    let right = line_points(x2, y1, x2, y2);
    lemma_times_concat(top + left + bottom, right, p);
    lemma_times_concat(top + left, bottom, p);
    lemma_times_concat(top, left, p);
    lemma_row_points(x1, x2, y1, p);
    lemma_column_points(x1, y1, y2, p);
    lemma_row_points(x1, x2, y2, p);
    lemma_column_points(x2, y1, y2, p);
}

/// The outline of a rectangle with `x1 < x2` and `y1 < y2` holds each of
/// its four corners exactly twice: once for each of the two edges that
/// meet there.
pub proof fn lemma_rectangle_corners(x1: u16, y1: u16, x2: u16, y2: u16)
    requires
        x1 < x2,
        y1 < y2,
    ensures
        times_plotted(rectangle_points(x1, y1, x2, y2), (x1, y1)) == 2,
        times_plotted(rectangle_points(x1, y1, x2, y2), (x2, y1)) == 2,
        times_plotted(rectangle_points(x1, y1, x2, y2), (x1, y2)) == 2,
        times_plotted(rectangle_points(x1, y1, x2, y2), (x2, y2)) == 2,
{
    lemma_rectangle_points(x1, y1, x2, y2, (x1, y1));
    lemma_rectangle_points(x1, y1, x2, y2, (x2, y1));
    lemma_rectangle_points(x1, y1, x2, y2, (x1, y2));
    lemma_rectangle_points(x1, y1, x2, y2, (x2, y2));
}

impl LCD {
    /// Draws the line from `(x1, y1)` to `(x2, y2)`, one point per unit of
    /// its longer extent and one more.
    ///
    /// For each point, each axis first adds its extent to its error and
    /// steps towards its end if the error then exceeds the longer extent;
    /// then the point is drawn. The first point is the start and the last
    /// is the end; equal end points give that one point.
    pub fn draw_line(&mut self, x1: u16, y1: u16, x2: u16, y2: u16, color: u16)
        ensures
            final(self).trace() == old(self).trace() + plot_events(
                old(self).orientation(),
                line_points(x1, y1, x2, y2),
                color,
            ),
            x1 == x2 && y1 == y2 ==> final(self).trace() == old(self).trace() + point_events(
                old(self).orientation(),
                x1,
                y1,
                color,
            ),
            final(self).orientation() == old(self).orientation(),
    {
        let mut xerr: i32 = 0;
        let mut yerr: i32 = 0;
        let mut delta_x: i32 = x2 as i32 - x1 as i32;
        let mut delta_y: i32 = y2 as i32 - y1 as i32;
        let incx: i32;
        let incy: i32;
        let mut row: i32 = x1 as i32;
        let mut col: i32 = y1 as i32;
        if delta_x > 0 {
            incx = 1;
        } else if delta_x == 0 {
            incx = 0;
        } else {
            incx = -1;
            delta_x = -delta_x;
        }
        if delta_y > 0 {
            incy = 1;
        } else if delta_y == 0 {
            incy = 0;
        } else {
            incy = -1;
            delta_y = -delta_y;
        }
        let distance: i32 = if delta_x > delta_y {
            delta_x
        } else {
            delta_y
        };
        let ghost d = self.orientation();
        let ghost before = self.trace();
        let ghost dist = line_distance(x1, y1, x2, y2);
        let ghost points = line_points(x1, y1, x2, y2);
        let mut k: i32 = 0;
        proof {
            assert(points.subrange(0, 0) =~= Seq::<(u16, u16)>::empty());
            assert(before + plot_events(d, points.subrange(0, 0), color) =~= before);
            assert(0 * gap(x1, x2) == 0) by (nonlinear_arith);
            assert(0 * gap(y1, y2) == 0) by (nonlinear_arith);
            assert(steps_taken(0, gap(x1, x2), dist) * dist == 0) by (nonlinear_arith)
                requires
                    steps_taken(0, gap(x1, x2), dist) == 0,
            ;
            assert(steps_taken(0, gap(y1, y2), dist) * dist == 0) by (nonlinear_arith)
                requires
                    steps_taken(0, gap(y1, y2), dist) == 0,
            ;
        }
        while k <= distance
            invariant
                0 <= k <= distance + 1,
                distance == dist,
                dist == line_distance(x1, y1, x2, y2),
                points == line_points(x1, y1, x2, y2),
                delta_x == gap(x1, x2),
                delta_y == gap(y1, y2),
                incx == if x2 >= x1 {
                    1i32
                } else {
                    -1i32
                } || delta_x == 0,
                incy == if y2 >= y1 {
                    1i32
                } else {
                    -1i32
                } || delta_y == 0,
                steps_taken(k as nat, delta_x as nat, dist) <= delta_x,
                steps_taken(k as nat, delta_y as nat, dist) <= delta_y,
                row == axis_after(x1, x2, k as nat, dist),
                col == axis_after(y1, y2, k as nat, dist),
                xerr == k * delta_x - steps_taken(k as nat, delta_x as nat, dist) * dist,
                yerr == k * delta_y - steps_taken(k as nat, delta_y as nat, dist) * dist,
                0 <= xerr <= distance,
                0 <= yerr <= distance,
                k * delta_x > 0 ==> xerr >= 1,
                k * delta_y > 0 ==> yerr >= 1,
                self.orientation() == d,
                self.trace() == before + plot_events(d, points.subrange(0, k as int), color),
            decreases distance + 1 - k,
        {
            proof {
                lemma_axis_step(k as nat, delta_x as nat, dist, xerr as int);
                lemma_axis_step(k as nat, delta_y as nat, dist, yerr as int);
            }
            xerr += delta_x;
            yerr += delta_y;
            if xerr > distance {
                xerr -= distance;
                row += incx;
            }
            if yerr > distance {
                yerr -= distance;
                col += incy;
            }
            let ghost sofar = plot_events(d, points.subrange(0, k as int), color);
            self.draw_point(row as u16, col as u16, color);
            proof {
                let sx = steps_taken(k as nat, delta_x as nat, dist);
                let sy = steps_taken(k as nat, delta_y as nat, dist);
                assert((sx + 1) * dist == sx * dist + dist) by (nonlinear_arith);
                assert((sy + 1) * dist == sy * dist + dist) by (nonlinear_arith);
                let next = points.subrange(0, k + 1);
                assert(next.drop_last() =~= points.subrange(0, k as int));
                assert(next.last() == line_point(x1, y1, x2, y2, k as nat));
                assert(next.last() == (row as u16, col as u16));
                lemma_append_assoc(before, sofar, point_events(d, row as u16, col as u16, color));
            }
            k += 1;
        }
        proof {
            assert(points.subrange(0, k as int) =~= points);
            if x1 == x2 && y1 == y2 {
                lemma_degenerate_line(d, x1, y1, color);
            }
        }
    }

    /// Draws the outline of the rectangle with corners `(x1, y1)` and
    /// `(x2, y2)` as four lines: top, left, bottom, right. Each corner is
    /// the end of two of them.
    pub fn draw_rectangle(&mut self, x1: u16, y1: u16, x2: u16, y2: u16, color: u16)
        ensures
            final(self).trace() == old(self).trace() + plot_events(
                old(self).orientation(),
                rectangle_points(x1, y1, x2, y2),
                color,
            ),
            final(self).orientation() == old(self).orientation(),
    {
        let ghost d = self.orientation();
        let ghost before = self.trace();
        self.draw_line(x1, y1, x2, y1, color);
        self.draw_line(x1, y1, x1, y2, color);
        self.draw_line(x1, y2, x2, y2, color);
        self.draw_line(x2, y1, x2, y2, color);
        proof {
            let top = line_points(x1, y1, x2, y1);
            let left = line_points(x1, y1, x1, y2);
            let bottom = line_points(x1, y2, x2, y2);
            let right = line_points(x2, y1, x2, y2);
            lemma_plot_concat(d, top, left, color);
            lemma_plot_concat(d, top + left, bottom, color);
            lemma_plot_concat(d, top + left + bottom, right, color);
            lemma_append_assoc(before, plot_events(d, top, color), plot_events(d, left, color));
            lemma_append_assoc(
                before,
                plot_events(d, top + left, color),
                plot_events(d, bottom, color),
            );
            lemma_append_assoc(
                before,
                plot_events(d, top + left + bottom, color),
                plot_events(d, right, color),
            );
        }
    }
}

/// Integer square root: the largest `s` with `s * s <= n`.
pub open spec fn isqrt(n: nat) -> nat
    decreases n,
{
    if n == 0 {
        0
    } else {
        let s = isqrt((n - 1) as nat);
        if (s + 1) * (s + 1) <= n {
            s + 1
        } else {
            s
        }
    }
}

/// The integer square root brackets its argument.
pub proof fn lemma_isqrt_bounds(n: nat)
    ensures
        isqrt(n) * isqrt(n) <= n < (isqrt(n) + 1) * (isqrt(n) + 1),
    decreases n,
{
    if n > 0 {
        lemma_isqrt_bounds((n - 1) as nat);
        let s = isqrt((n - 1) as nat);
        let t = isqrt(n);
        if (s + 1) * (s + 1) <= n {
            assert(t == s + 1);
            assert(t * t <= n < (t + 1) * (t + 1)) by (nonlinear_arith)
                requires
                    t == s + 1,
                    s >= 0,
                    (s + 1) * (s + 1) <= n,
                    n - 1 < (s + 1) * (s + 1),
            ;
        } else {
            assert(t == s);
        }
    } else {
        let t = isqrt(n);
        assert(t * t <= n < (t + 1) * (t + 1)) by (nonlinear_arith)
            requires
                t == 0,
                n == 0,
        ;
    }
}

/// Only the integer square root brackets its argument.
pub proof fn lemma_isqrt_unique(n: nat, b: nat)
    requires
        b * b <= n < (b + 1) * (b + 1),
    ensures
        b == isqrt(n),
{
    lemma_isqrt_bounds(n);
    let s = isqrt(n);
    if b < s {
        assert((b + 1) * (b + 1) <= s * s) by (nonlinear_arith)
            requires
                0 <= b + 1 <= s,
        ;
    } else if b > s {
        assert((s + 1) * (s + 1) <= b * b) by (nonlinear_arith)
            requires
                0 <= s + 1 <= b,
        ;
    }
}

/// Height of a circle of radius `r` above the point `a` of its diameter:
/// the largest `b` with `a * a + b * b <= r * r`.
pub open spec fn circle_height(r: nat, a: nat) -> nat
    recommends
        a <= r,
{
    isqrt((r * r - a * a) as nat)
}

/// Number of steps a circle is drawn in: one for each `a` from zero up to
/// the diagonal, where `a` passes the height above it.
pub open spec fn circle_steps(r: nat) -> nat {
    isqrt(r * r / 2) + 1
}

/// Events of the eight points that mirror `(a, b)` about the centre
/// `(x0, y0)`, each coordinate taken modulo 2^16.
pub open spec fn octant_events(d: Direction, x0: u16, y0: u16, a: int, b: int, color: u16) -> Seq<
    BusEvent,
> {
    point_events(d, wrap_add(x0, -b), wrap_add(y0, -a), color)
        + point_events(d, wrap_add(x0, b), wrap_add(y0, -a), color)
        + point_events(d, wrap_add(x0, -a), wrap_add(y0, b), color)
        + point_events(d, wrap_add(x0, -a), wrap_add(y0, -b), color)
        + point_events(d, wrap_add(x0, b), wrap_add(y0, a), color)
        + point_events(d, wrap_add(x0, a), wrap_add(y0, -b), color)
        + point_events(d, wrap_add(x0, a), wrap_add(y0, b), color)
        + point_events(d, wrap_add(x0, -b), wrap_add(y0, a), color)
}

/// Events of the first `n` steps of a circle of radius `r` about
/// `(x0, y0)`: step `a` draws the points that mirror `(a, height above a)`.
pub open spec fn circle_events(d: Direction, x0: u16, y0: u16, r: nat, color: u16, n: nat) -> Seq<
    BusEvent,
>
    decreases n,
{
    if n == 0 {
        Seq::empty()
    } else {
        circle_events(d, x0, y0, r, color, (n - 1) as nat) + octant_events(
            d,
            x0,
            y0,
            n - 1,
            circle_height(r, (n - 1) as nat) as int,
            color,
        )
    }
}

/// Every step of a circle lies on its rim: the point `(a, b)` it mirrors
/// is inside the radius, the next higher point is outside, and `a` has not
/// passed `b`. No point lies beyond the radius.
pub proof fn lemma_circle_points_on_rim(r: nat, a: nat)
    requires
        a < circle_steps(r),
    ensures
        a <= circle_height(r, a) <= r,
        a * a + circle_height(r, a) * circle_height(r, a) <= r * r,
        r * r < a * a + (circle_height(r, a) + 1) * (circle_height(r, a) + 1),
{
    let half = r * r / 2;
    lemma_isqrt_bounds(half);
    let m = isqrt(half);
    assert(a * a <= m * m) by (nonlinear_arith)
        requires
            0 <= a <= m,
    ;
    assert(2 * (a * a) <= r * r);
    let rest = (r * r - a * a) as nat;
    lemma_isqrt_bounds(rest);
    let b = isqrt(rest);
    if b < a {
        assert((b + 1) * (b + 1) <= a * a) by (nonlinear_arith)
            requires
                0 <= b + 1 <= a,
        ;
    }
    if b > r {
        assert((r + 1) * (r + 1) <= b * b) by (nonlinear_arith)
            requires
                0 <= r + 1 <= b,
        ;
        assert((r + 1) * (r + 1) > r * r) by (nonlinear_arith)
            requires
                0 <= r,
        ;
    }
}

/// The coordinate `k` steps before `a`, modulo 2^16.
pub fn back(a: u16, k: u16) -> (r: u16)
    ensures
        r == wrap_add(a, -k),
{
    a.wrapping_sub(k)
}

impl LCD {
    /// Draws the eight points that mirror `(a, b)` about `(x0, y0)`.
    fn draw_octants(&mut self, x0: u16, y0: u16, a: u16, b: u16, color: u16)
        ensures
            final(self).trace() == old(self).trace() + octant_events(
                old(self).orientation(),
                x0,
                y0,
                a as int,
                b as int,
                color,
            ),
            final(self).orientation() == old(self).orientation(),
    {
        let ghost d = self.orientation();
        let ghost before = self.trace();
        self.draw_point(back(x0, b), back(y0, a), color);
        self.draw_point(offset(x0, b), back(y0, a), color);
        self.draw_point(back(x0, a), offset(y0, b), color);
        self.draw_point(back(x0, a), back(y0, b), color);
        self.draw_point(offset(x0, b), offset(y0, a), color);
        self.draw_point(offset(x0, a), back(y0, b), color);
        self.draw_point(offset(x0, a), offset(y0, b), color);
        self.draw_point(back(x0, b), offset(y0, a), color);
        proof {
            let m1 = point_events(d, wrap_add(x0, -b), wrap_add(y0, -a), color);
            let m2 = point_events(d, wrap_add(x0, b as int), wrap_add(y0, -a), color);
            let m3 = point_events(d, wrap_add(x0, -a), wrap_add(y0, b as int), color);
            let m4 = point_events(d, wrap_add(x0, -a), wrap_add(y0, -b), color);
            let m5 = point_events(d, wrap_add(x0, b as int), wrap_add(y0, a as int), color);
            let m6 = point_events(d, wrap_add(x0, a as int), wrap_add(y0, -b), color);
            let m7 = point_events(d, wrap_add(x0, a as int), wrap_add(y0, b as int), color);
            let m8 = point_events(d, wrap_add(x0, -b), wrap_add(y0, a as int), color);
            lemma_append_assoc(before, m1, m2);
            lemma_append_assoc(before, m1 + m2, m3);
            lemma_append_assoc(before, m1 + m2 + m3, m4);
            lemma_append_assoc(before, m1 + m2 + m3 + m4, m5);
            lemma_append_assoc(before, m1 + m2 + m3 + m4 + m5, m6);
            lemma_append_assoc(before, m1 + m2 + m3 + m4 + m5 + m6, m7);
            lemma_append_assoc(before, m1 + m2 + m3 + m4 + m5 + m6 + m7, m8);
        }
    }

    /// Draws the circle of radius `r` about `(x0, y0)` by the midpoint
    /// method.
    ///
    /// Starting on the axis at `(0, r)`, each step mirrors its point into
    /// all eight octants, moves one unit along the axis and comes one unit
    /// nearer to it when the point would leave the circle; the walk ends
    /// at the diagonal. Coordinates wrap modulo 2^16.
    pub fn draw_circle(&mut self, x0: u16, y0: u16, r: u8, color: u16)
        ensures
            final(self).trace() == old(self).trace() + circle_events(
                old(self).orientation(),
                x0,
                y0,
                r as nat,
                color,
                circle_steps(r as nat),
            ),
            final(self).orientation() == old(self).orientation(),
    {
        let mut a: i32 = 0;
        let mut b: i32 = r as i32;
        let ghost d = self.orientation();
        let ghost before = self.trace();
        proof {
            assert(before + circle_events(d, x0, y0, r as nat, color, 0) =~= before);
            assert(r * r < (r + 1) * (r + 1)) by (nonlinear_arith)
                requires
                    r >= 0,
            ;
        }
        while a <= b
            invariant
                0 <= a <= r + 1,
                -1 <= b <= r,
                r * r < a * a + (b + 1) * (b + 1),
                a <= b ==> a * a + b * b <= r * r,
                a > 0 ==> 2 * ((a - 1) * (a - 1)) <= r * r,
                self.orientation() == d,
                self.trace() == before + circle_events(d, x0, y0, r as nat, color, a as nat),
            decreases r + 1 - a,
        {
            let ghost sofar = circle_events(d, x0, y0, r as nat, color, a as nat);
            proof {
                assert(a * a <= b * b) by (nonlinear_arith)
                    requires
                        0 <= a <= b,
                ;
                assert(a * a <= r * r);
                assert(a <= r) by (nonlinear_arith)
                    requires
                        a * a <= r * r,
                        0 <= a,
                        0 <= r,
                ;
                lemma_isqrt_unique((r * r - a * a) as nat, b as nat);
            }
            self.draw_octants(x0, y0, a as u16, b as u16, color);
            proof {
                lemma_append_assoc(before, sofar, octant_events(d, x0, y0, a as int, b as int, color));
                assert((a + 1) * (a + 1) == a * a + 2 * a + 1) by (nonlinear_arith);
                assert((b - 1) * (b - 1) == b * b - 2 * b + 1) by (nonlinear_arith);
                assert(b * b <= r * r) by (nonlinear_arith)
                    requires
                        0 <= b <= r,
                ;
                assert(a * a <= 255 * 255 && b * b <= 255 * 255) by (nonlinear_arith)
                    requires
                        0 <= a <= 255,
                        0 <= b <= 255,
                ;
                assert(r * r <= 255 * 255) by (nonlinear_arith)
                    requires
                        0 <= r <= 255,
                ;
            }
            a += 1;
            if (a * a + b * b) > (r as i32 * r as i32) {
                b -= 1;
            }
        }
        proof {
            let m = (a - 1) as nat;
            let half = (r as nat) * (r as nat) / 2;
            assert(a * a >= (b + 1) * (b + 1)) by (nonlinear_arith)
                requires
                    0 <= b + 1 <= a,
            ;
            assert((m + 1) * (m + 1) == a * a);
            assert(m * m == (a - 1) * (a - 1));
            lemma_isqrt_unique(half, m);
        }
    }
}

} // verus!
