use tapestry::patterns::{diag_neighborhood, neighborhood, ortho_neighborhood, FaultRule, LineIter};
use tapestry::Coord;

fn c(x: i32, y: i32) -> Coord {
    Coord::new(x, y)
}

fn pts(v: &[(i32, i32)]) -> Vec<Coord> {
    v.iter().map(|&(x, y)| c(x, y)).collect()
}

fn trace(from: Coord, to: Coord, rule: FaultRule) -> Vec<Coord> {
    let mut it = LineIter::new(from, to, rule);
    let mut out = Vec::new();
    while let Some(p) = it.next() {
        out.push(p);
    }
    out
}

#[test]
fn coord_arithmetic() {
    assert_eq!(c(1, 2) + c(3, -5), c(4, -3));
    assert_eq!(c(1, 2) - c(3, -5), c(-2, 7));
    assert_eq!(Coord::from((7, -8)), c(7, -8));
}

#[test]
fn neighborhood_clockwise_from_north() {
    assert_eq!(
        neighborhood(c(0, 0)),
        pts(&[(0, 1), (1, 1), (1, 0), (1, -1), (0, -1), (-1, -1), (-1, 0), (-1, 1)])
    );
}

#[test]
fn neighborhood_of_negative_origin() {
    let o = c(-5, -7);
    let n = neighborhood(o);
    assert_eq!(n.len(), 8);
    for (i, p) in n.iter().enumerate() {
        let d = (p.x - o.x).abs().max((p.y - o.y).abs());
        assert_eq!(d, 1);
        assert!(!n[..i].contains(p));
    }
    assert_eq!(n[0], c(-5, -6));
}

#[test]
fn ortho_and_diag_split_the_neighborhood() {
    let o = c(3, -2);
    let h = ortho_neighborhood(o);
    let d = diag_neighborhood(o);
    assert_eq!(h, pts(&[(3, -1), (4, -2), (3, -3), (2, -2)]));
    assert_eq!(d, pts(&[(4, -1), (4, -3), (2, -3), (2, -1)]));
    let n = neighborhood(o);
    for p in h.iter().chain(d.iter()) {
        assert!(n.contains(p));
    }
    for p in &n {
        assert!(h.contains(p) != d.contains(p));
    }
}

#[test]
fn line_to_itself() {
    assert_eq!(tapestry::patterns::line(c(4, -9), c(4, -9)), vec![c(4, -9)]);
    assert_eq!(trace(c(0, 0), c(0, 0), FaultRule::AtOrBelowZero), vec![c(0, 0)]);
}

#[test]
fn line_shallow_slope_below_zero() {
    assert_eq!(tapestry::patterns::line(c(0, 0), c(3, 1)), pts(&[(0, 0), (1, 0), (2, 1), (3, 1)]));
}

#[test]
fn line_shallow_slope_at_or_below_zero() {
    assert_eq!(
        trace(c(0, 0), c(3, 1), FaultRule::AtOrBelowZero),
        pts(&[(0, 0), (1, 0), (2, 1), (3, 1)])
    );
    assert_eq!(
        trace(c(0, 0), c(4, 1), FaultRule::AtOrBelowZero),
        pts(&[(0, 0), (1, 0), (2, 1), (3, 1), (4, 1)])
    );
    assert_eq!(
        trace(c(0, 0), c(4, 1), FaultRule::BelowZero),
        pts(&[(0, 0), (1, 0), (2, 0), (3, 1), (4, 1)])
    );
}

#[test]
fn line_shape_over_many_endpoints() {
    for ax in -3..4 {
        for ay in -3..4 {
            for bx in -4..5 {
                for by in -4..5 {
                    let (a, b) = (c(ax, ay), c(bx, by));
                    let l = tapestry::patterns::line(a, b);
                    let len = (bx - ax).abs().max((by - ay).abs()) + 1;
                    assert_eq!(l.len() as i32, len);
                    assert_eq!(l[0], a);
                    assert_eq!(*l.last().unwrap(), b);
                    for w in l.windows(2) {
                        let d = (w[1].x - w[0].x).abs().max((w[1].y - w[0].y).abs());
                        assert_eq!(d, 1);
                    }
                    let mut back = trace(b, a, FaultRule::AtOrBelowZero);
                    back.reverse();
                    assert_eq!(back, l);
                }
            }
        }
    }
}

#[test]
fn line_reverses_along_axes_and_diagonals() {
    let cases = [((0, 0), (5, 0)), ((2, 3), (2, -4)), ((0, 0), (3, 3)), ((1, -1), (-3, 3))];
    for &((ax, ay), (bx, by)) in &cases {
        let mut back = tapestry::patterns::line(c(bx, by), c(ax, ay));
        back.reverse();
        assert_eq!(back, tapestry::patterns::line(c(ax, ay), c(bx, by)));
    }
}

#[test]
fn line_reverse_differs_on_other_slopes() {
    let mut back = tapestry::patterns::line(c(4, 1), c(0, 0));
    back.reverse();
    assert_eq!(back, pts(&[(0, 0), (1, 0), (2, 1), (3, 1), (4, 1)]));
    assert_ne!(back, tapestry::patterns::line(c(0, 0), c(4, 1)));
}

#[test]
fn line_steep_and_negative() {
    assert_eq!(tapestry::patterns::line(c(0, 0), c(-1, -3)), pts(&[(0, 0), (0, -1), (-1, -2), (-1, -3)]));
    assert_eq!(tapestry::patterns::line(c(0, 0), c(-4, 0)), pts(&[(0, 0), (-1, 0), (-2, 0), (-3, 0), (-4, 0)]));
}

#[test]
fn line_iter_stops_after_end() {
    let mut it = LineIter::new(c(0, 0), c(2, 0), FaultRule::BelowZero);
    assert_eq!(it.next(), Some(c(0, 0)));
    assert_eq!(it.next(), Some(c(1, 0)));
    assert_eq!(it.next(), Some(c(2, 0)));
    assert_eq!(it.next(), None);
    assert_eq!(it.next(), None);
}

#[test]
fn line_across_the_whole_coordinate_range() {
    let mut it = LineIter::new(c(i32::MIN, 0), c(i32::MAX, 1), FaultRule::BelowZero);
    assert_eq!(it.next(), Some(c(i32::MIN, 0)));
    assert_eq!(it.next(), Some(c(i32::MIN + 1, 0)));
    assert_eq!(
        tapestry::patterns::line(c(i32::MAX - 2, i32::MIN), c(i32::MAX, i32::MIN + 1)),
        vec![c(i32::MAX - 2, i32::MIN), c(i32::MAX - 1, i32::MIN), c(i32::MAX, i32::MIN + 1)]
    );
}
