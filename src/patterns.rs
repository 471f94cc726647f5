//! Coordinate patterns: the neighborhoods of a cell and line traces.
//!
//! A pattern depends on no cell data; it lists the coordinates that a grid
//! selection then resolves into cells or bounds failures.
use vstd::arithmetic::div_mod::{
    lemma_div_is_ordered, lemma_fundamental_div_mod, lemma_fundamental_div_mod_converse,
    lemma_mod_pos_bound,
};
use vstd::prelude::*;

use crate::coord::{coords_view, in_i32, Coord};

verus! {

/// The Moore neighborhood of `o`, clockwise from north: N, NE, E, SE, S, SW, W, NW.
pub open spec fn neighborhood_of(o: (int, int)) -> Seq<(int, int)> {
    seq![
        (o.0, o.1 + 1),
        (o.0 + 1, o.1 + 1),
        (o.0 + 1, o.1),
        (o.0 + 1, o.1 - 1),
        (o.0, o.1 - 1),
        (o.0 - 1, o.1 - 1),
        (o.0 - 1, o.1),
        (o.0 - 1, o.1 + 1),
    ]
}

/// The Von Neumann neighborhood of `o`, clockwise from north: N, E, S, W.
pub open spec fn ortho_neighborhood_of(o: (int, int)) -> Seq<(int, int)> {
    seq![(o.0, o.1 + 1), (o.0 + 1, o.1), (o.0, o.1 - 1), (o.0 - 1, o.1)]
}

/// The diagonal neighborhood of `o`, clockwise from north-east: NE, SE, SW, NW.
pub open spec fn diag_neighborhood_of(o: (int, int)) -> Seq<(int, int)> {
    seq![(o.0 + 1, o.1 + 1), (o.0 + 1, o.1 - 1), (o.0 - 1, o.1 - 1), (o.0 - 1, o.1 + 1)]
}

/// Every unit offset from `o` stays within `i32`.
pub open spec fn has_neighbors(o: Coord) -> bool {
    i32::MIN < o.x < i32::MAX && i32::MIN < o.y < i32::MAX
}

/// Adds each offset to `o`, in order.
fn offsets_from(o: Coord, offsets: &[(i32, i32)]) -> (r: Vec<Coord>)
    requires
        has_neighbors(o),
        forall|i: int|
            0 <= i < offsets@.len() ==> -1 <= #[trigger] offsets@[i].0 <= 1 && -1
                <= offsets@[i].1 <= 1,
    ensures
        r@.len() == offsets@.len(),
        forall|i: int|
            0 <= i < offsets@.len() ==> #[trigger] r@[i]@ == (o.x + offsets@[i].0, o.y
                + offsets@[i].1),
{
    let mut r: Vec<Coord> = Vec::new();
    let mut i: usize = 0;
    while i < offsets.len()
        invariant
            has_neighbors(o),
            forall|j: int|
                0 <= j < offsets@.len() ==> -1 <= #[trigger] offsets@[j].0 <= 1 && -1
                    <= offsets@[j].1 <= 1,
            i <= offsets@.len(),
            r@.len() == i,
            forall|j: int|
                0 <= j < i ==> #[trigger] r@[j]@ == (o.x + offsets@[j].0, o.y
                    + offsets@[j].1),
        decreases offsets@.len() - i,
    {
        let off = offsets[i];
        r.push(o + Coord::from(off));
        i = i + 1;
    }
    r
}

/// Returns the orthogonal and diagonal (Moore) neighborhood of `coord`.
pub fn neighborhood(coord: Coord) -> (r: Vec<Coord>)
    requires
        has_neighbors(coord),
    ensures
        coords_view(r@) == neighborhood_of(coord@),
{
    let offsets: [(i32, i32); 8] = [(0, 1), (1, 1), (1, 0), (1, -1), (0, -1), (-1, -1), (-1, 0), (-1, 1)];
    let r = offsets_from(coord, offsets.as_slice());
    assert(coords_view(r@) =~= neighborhood_of(coord@));
    r
}

/// Returns the orthogonal (Von Neumann) neighborhood of `coord`.
pub fn ortho_neighborhood(coord: Coord) -> (r: Vec<Coord>)
    requires
        has_neighbors(coord),
    ensures
        coords_view(r@) == ortho_neighborhood_of(coord@),
{
    let offsets: [(i32, i32); 4] = [(0, 1), (1, 0), (0, -1), (-1, 0)];
    let r = offsets_from(coord, offsets.as_slice());
    assert(coords_view(r@) =~= ortho_neighborhood_of(coord@));
    r
}

/// Returns the diagonal neighborhood of `coord`.
pub fn diag_neighborhood(coord: Coord) -> (r: Vec<Coord>)
    requires
        has_neighbors(coord),
    ensures
        coords_view(r@) == diag_neighborhood_of(coord@),
{
    let offsets: [(i32, i32); 4] = [(1, 1), (1, -1), (-1, -1), (-1, 1)];
    let r = offsets_from(coord, offsets.as_slice());
    assert(coords_view(r@) =~= diag_neighborhood_of(coord@));
    r
}

/// When a line trace also steps along its minor axis.
///
/// The trace keeps a running fault and steps along the minor axis when the
/// fault drops below zero (`BelowZero`) or reaches zero (`AtOrBelowZero`). The
/// two rules give mirror-image step patterns on lines that are neither
/// axis-aligned nor diagonal; tracing from the other end under one rule gives
/// the reverse of the trace under the other.
#[derive(Clone, Copy, Debug, PartialEq, Eq, Structural)]
pub enum FaultRule {
    BelowZero,
    AtOrBelowZero,
}

pub open spec fn abs(v: int) -> int {
    if v < 0 {
        -v
    } else {
        v
    }
}

pub open spec fn sgn(v: int) -> int {
    if v < 0 {
        -1
    } else if v > 0 {
        1
    } else {
        0
    }
}

/// Whether the x axis is the major axis of the line from `a` to `b`; on a tie
/// the y axis is major.
pub open spec fn x_is_major(a: (int, int), b: (int, int)) -> bool {
    abs(b.0 - a.0) > abs(b.1 - a.1)
}

/// The distance along the major axis, which is the number of steps of the line.
pub open spec fn major_len(a: (int, int), b: (int, int)) -> int {
    if x_is_major(a, b) {
        abs(b.0 - a.0)
    } else {
        abs(b.1 - a.1)
    }
}

pub open spec fn minor_len(a: (int, int), b: (int, int)) -> int {
    if x_is_major(a, b) {
        abs(b.1 - a.1)
    } else {
        abs(b.0 - a.0)
    }
}

/// How many minor-axis steps a trace with the given major and minor lengths
/// has taken after `i` major-axis steps: the fewest that keep the fault
/// `major / 2 - i * minor + k * major` out of the rule's reset range.
pub open spec fn minor_offset(rule: FaultRule, major: int, minor: int, i: int) -> int {
    if major == 0 {
        0
    } else {
        match rule {
            FaultRule::BelowZero => (2 * i * minor + major - 1) / (2 * major),
            FaultRule::AtOrBelowZero => (2 * i * minor + major) / (2 * major),
        }
    }
}

/// `j` unit steps from `a0` towards `a0 + d`.
pub open spec fn step_along(a0: int, d: int, j: int) -> int {
    a0 + j * sgn(d)
}

/// The `i`-th coordinate of the line from `a` to `b`.
pub open spec fn line_point(a: (int, int), b: (int, int), rule: FaultRule, i: int) -> (int, int) {
    let k = minor_offset(rule, major_len(a, b), minor_len(a, b), i);
    if x_is_major(a, b) {
        (step_along(a.0, b.0 - a.0, i), step_along(a.1, b.1 - a.1, k))
    } else {
        (step_along(a.0, b.0 - a.0, k), step_along(a.1, b.1 - a.1, i))
    }
}

/// The Bresenham trace from `a` to `b`, both endpoints included.
pub open spec fn line_of(a: (int, int), b: (int, int), rule: FaultRule) -> Seq<(int, int)> {
    Seq::new((major_len(a, b) + 1) as nat, |i: int| line_point(a, b, rule, i))
}

pub open spec fn fault_in_range(rule: FaultRule, major: int, f: int) -> bool {
    match rule {
        FaultRule::BelowZero => 0 <= f < 2 * major,
        FaultRule::AtOrBelowZero => 0 < f <= 2 * major,
    }
}

/// A fault in the rule's range pins down the number of minor-axis steps.
proof fn lemma_offset_from_fault(rule: FaultRule, major: int, minor: int, i: int, k: int, f: int)
    requires
        major > 0,
        f == major - 2 * i * minor + 2 * k * major,
        fault_in_range(rule, major, f),
    ensures
        minor_offset(rule, major, minor, i) == k,
{
    match rule {
        FaultRule::BelowZero => {
            assert(2 * i * minor + major - 1 == k * (2 * major) + (2 * major - 1 - f))
                by (nonlinear_arith)
                requires
                    f == major - 2 * i * minor + 2 * k * major,
            ;
            lemma_fundamental_div_mod_converse(
                2 * i * minor + major - 1,
                2 * major,
                k,
                2 * major - 1 - f,
            );
        },
        FaultRule::AtOrBelowZero => {
            assert(2 * i * minor + major == k * (2 * major) + (2 * major - f)) by (nonlinear_arith)
                requires
                    f == major - 2 * i * minor + 2 * k * major,
            ;
            lemma_fundamental_div_mod_converse(2 * i * minor + major, 2 * major, k, 2 * major - f);
        },
    }
}

/// The trace takes no minor-axis step before its first major-axis step, and
/// all of them by its last.
proof fn lemma_offset_ends(rule: FaultRule, major: int, minor: int)
    requires
        0 <= minor <= major,
    ensures
        minor_offset(rule, major, minor, 0) == 0,
        minor_offset(rule, major, minor, major) == minor,
{
    if major > 0 {
        lemma_offset_from_fault(rule, major, minor, 0, 0, major);
        assert(major - 2 * major * minor + 2 * minor * major == major) by (nonlinear_arith);
        lemma_offset_from_fault(rule, major, minor, major, minor, major);
    }
}

/// Between its ends the trace has taken between none and all of its minor-axis steps.
proof fn lemma_offset_range(rule: FaultRule, major: int, minor: int, i: int)
    requires
        0 <= minor <= major,
        0 <= i <= major,
    ensures
        0 <= minor_offset(rule, major, minor, i) <= minor,
{
    if major > 0 {
        lemma_offset_ends(rule, major, minor);
        let lo: int = if rule == FaultRule::BelowZero { major - 1 } else { major };
        assert(0 <= 2 * i * minor <= 2 * major * minor) by (nonlinear_arith)
            requires
                0 <= minor,
                0 <= i <= major,
        ;
        lemma_div_is_ordered(lo, 2 * i * minor + lo, 2 * major);
        lemma_div_is_ordered(2 * i * minor + lo, 2 * major * minor + lo, 2 * major);
    }
}

proof fn lemma_step_along(a0: int, d: int, j: int)
    requires
        0 <= j,
    ensures
        j == abs(d) ==> step_along(a0, d, j) == a0 + d,
        j < abs(d) ==> step_along(a0, d, j) != a0 + d,
        j <= abs(d) && d >= 0 ==> a0 <= step_along(a0, d, j) <= a0 + d,
        j <= abs(d) && d < 0 ==> a0 + d <= step_along(a0, d, j) <= a0,
        step_along(a0, d, j + 1) == step_along(a0, d, j) + sgn(d),
{
    assert(step_along(a0, d, j + 1) == step_along(a0, d, j) + sgn(d)) by (nonlinear_arith)
        requires
            step_along(a0, d, j + 1) == a0 + (j + 1) * sgn(d),
            step_along(a0, d, j) == a0 + j * sgn(d),
    ;
}

/// Each coordinate of a trace lies in the box spanned by its ends, and the
/// trace reaches its far end exactly at its last coordinate.
proof fn lemma_point_in_box(a: (int, int), b: (int, int), rule: FaultRule, i: int)
    requires
        0 <= i <= major_len(a, b),
    ensures
        in_i32(a) && in_i32(b) ==> in_i32(line_point(a, b, rule, i)),
        line_point(a, b, rule, i) == b <==> i == major_len(a, b),
        i == 0 ==> line_point(a, b, rule, i) == a,
{
    let (ma, mi) = (major_len(a, b), minor_len(a, b));
    let k = minor_offset(rule, ma, mi, i);
    lemma_offset_range(rule, ma, mi, i);
    lemma_offset_ends(rule, ma, mi);
    lemma_step_along(a.0, b.0 - a.0, i);
    lemma_step_along(a.1, b.1 - a.1, i);
    lemma_step_along(a.0, b.0 - a.0, k);
    lemma_step_along(a.1, b.1 - a.1, k);
    assert(step_along(a.0, b.0 - a.0, 0) == a.0);
    assert(step_along(a.1, b.1 - a.1, 0) == a.1);
}

/// A lazy Bresenham trace from one coordinate to another.
///
/// The fault is kept doubled, so that it stays an integer: it starts at the
/// major-axis distance, falls by twice the minor-axis distance at each step and
/// rises by twice the major-axis distance when the rule resets it.
pub struct LineIter {
    start: Ghost<(int, int)>,
    end_coord: Coord,
    next_coord: Coord,
    /// Added to the coordinate at every step.
    major_step: Coord,
    /// Added to the coordinate when the fault is reset.
    minor_step: Coord,
    fault: i64,
    /// Added to the fault when it is reset.
    major_fault: i64,
    /// Taken from the fault at every step.
    minor_fault: i64,
    rule: FaultRule,
    emitted: Ghost<int>,
    is_finished: bool,
}

impl LineIter {
    /// The coordinates that the trace has yet to yield.
    pub closed spec fn remaining(&self) -> Seq<(int, int)> {
        line_of(self.start@, self.end_coord@, self.rule).skip(self.emitted@)
    }

    pub closed spec fn wf(&self) -> bool {
        let a = self.start@;
        let b = self.end_coord@;
        let ma = major_len(a, b);
        let mi = minor_len(a, b);
        let i = self.emitted@;
        &&& in_i32(a)
        &&& self.major_fault == 2 * ma
        &&& self.minor_fault == 2 * mi
        &&& self.major_step@ == (if x_is_major(a, b) {
            (sgn(b.0 - a.0), 0)
        } else {
            (0, sgn(b.1 - a.1))
        })
        &&& self.minor_step@ == (if x_is_major(a, b) {
            (0, sgn(b.1 - a.1))
        } else {
            (sgn(b.0 - a.0), 0)
        })
        &&& 0 <= i <= ma + 1
        &&& self.is_finished <==> i == ma + 1
        &&& !self.is_finished ==> {
            &&& self.next_coord@ == line_point(a, b, self.rule, i)
            &&& self.fault == ma - 2 * i * mi + 2 * minor_offset(self.rule, ma, mi, i) * ma
            &&& ma > 0 ==> fault_in_range(self.rule, ma, self.fault as int)
        }
    }

    /// Starts the trace from `from` to `to` under `rule`.
    pub fn new(from: Coord, to: Coord, rule: FaultRule) -> (r: LineIter)
        ensures
            r.wf(),
            r.remaining() == line_of(from@, to@, rule),
    {
        let dx: i64 = to.x as i64 - from.x as i64;
        let dy: i64 = to.y as i64 - from.y as i64;
        let adx: i64 = if dx < 0 { -dx } else { dx };
        let ady: i64 = if dy < 0 { -dy } else { dy };
        let sx: i32 = if dx < 0 { -1 } else if dx > 0 { 1 } else { 0 };
        let sy: i32 = if dy < 0 { -1 } else if dy > 0 { 1 } else { 0 };
        let x_major = adx > ady;
        let (major_step, minor_step) = if x_major {
            (Coord::new(sx, 0), Coord::new(0, sy))
        } else {
            (Coord::new(0, sy), Coord::new(sx, 0))
        };
        let (major, minor) = if x_major { (adx, ady) } else { (ady, adx) };
        proof {
            let (ma, mi) = (major_len(from@, to@), minor_len(from@, to@));
            assert(x_major == x_is_major(from@, to@));
            assert(major == ma && minor == mi);
            lemma_offset_ends(rule, ma, mi);
            lemma_point_in_box(from@, to@, rule, 0);
            assert(ma - 2 * 0 * mi + 2 * 0 * ma == ma) by (nonlinear_arith);
        }
        let r = LineIter {
            start: Ghost(from@),
            end_coord: to,
            next_coord: from,
            major_step,
            minor_step,
            fault: major,
            major_fault: 2 * major,
            minor_fault: 2 * minor,
            rule,
            emitted: Ghost(0),
            is_finished: false,
        };
        assert(r.remaining() =~= line_of(from@, to@, rule));
        r
    }

    /// Yields the next coordinate of the trace, or `None` once `to` has been
    /// yielded.
    pub fn next(&mut self) -> (r: Option<Coord>)
        requires
            old(self).wf(),
        ensures
            final(self).wf(),
            old(self).remaining().len() == 0 ==> r is None && final(self).remaining() == old(
                self,
            ).remaining(),
            old(self).remaining().len() > 0 ==> r is Some && r->0@ == old(self).remaining()[0]
                && final(self).remaining() == old(self).remaining().drop_first(),
    {
        let ghost a = self.start@;
        let ghost b = self.end_coord@;
        let ghost ma = major_len(a, b);
        let ghost mi = minor_len(a, b);
        let ghost i = self.emitted@;
        if self.is_finished {
            return None;
        }
        proof {
            lemma_point_in_box(a, b, self.rule, i);
        }
        if self.next_coord == self.end_coord {
            self.is_finished = true;
            self.emitted = Ghost(i + 1);
            assert(final(self).remaining() =~= old(self).remaining().drop_first());
            return Some(self.end_coord);
        }
        let ret = self.next_coord;
        let ghost k = minor_offset(self.rule, ma, mi, i);
        proof {
            lemma_point_in_box(a, b, self.rule, i + 1);
            lemma_offset_range(self.rule, ma, mi, i + 1);
            lemma_offset_range(self.rule, ma, mi, i);
            lemma_step_along(a.0, b.0 - a.0, i);
            lemma_step_along(a.1, b.1 - a.1, i);
            lemma_step_along(a.0, b.0 - a.0, k);
            lemma_step_along(a.1, b.1 - a.1, k);
            assert(2 * (i + 1) * mi == 2 * i * mi + 2 * mi) by (nonlinear_arith);
            assert(2 * (k + 1) * ma == 2 * k * ma + 2 * ma) by (nonlinear_arith);
        }
        self.next_coord = self.next_coord + self.major_step;
        self.fault = self.fault - self.minor_fault;
        let reset = match self.rule {
            FaultRule::BelowZero => self.fault < 0,
            FaultRule::AtOrBelowZero => self.fault <= 0,
        };
        if reset {
            self.fault = self.fault + self.major_fault;
            proof {
                lemma_offset_from_fault(self.rule, ma, mi, i + 1, k + 1, self.fault as int);
            }
            self.next_coord = self.next_coord + self.minor_step;
        } else {
            proof {
                lemma_offset_from_fault(self.rule, ma, mi, i + 1, k, self.fault as int);
            }
        }
        self.emitted = Ghost(i + 1);
        assert(final(self).remaining() =~= old(self).remaining().drop_first());
        Some(ret)
    }
}

/// Traces Bresenham's line from `from` to `to`, both included, stepping along
/// the minor axis when the fault drops below zero.
pub fn line(from: Coord, to: Coord) -> (r: Vec<Coord>)
    ensures
        coords_view(r@) == line_of(from@, to@, FaultRule::BelowZero),
{
    let mut it = LineIter::new(from, to, FaultRule::BelowZero);
    let mut out: Vec<Coord> = Vec::new();
    loop
        invariant
            it.wf(),
            coords_view(out@) + it.remaining() == line_of(from@, to@, FaultRule::BelowZero),
        ensures
            coords_view(out@) == line_of(from@, to@, FaultRule::BelowZero),
        decreases it.remaining().len(),
    {
        match it.next() {
            Some(c) => {
                let ghost before = coords_view(out@);
                out.push(c);
                assert(coords_view(out@) =~= before.push(c@));
            },
            None => {
                assert(coords_view(out@) + it.remaining() =~= coords_view(out@));
                break ;
            },
        }
    }
    out
}

/// The Chebyshev (king-move) distance between two coordinates.
pub open spec fn chebyshev(p: (int, int), q: (int, int)) -> int {
    if abs(p.0 - q.0) >= abs(p.1 - q.1) {
        abs(p.0 - q.0)
    } else {
        abs(p.1 - q.1)
    }
}

/// The Moore neighborhood of any origin holds eight distinct coordinates, each
/// one king move away from the origin.
pub proof fn lemma_neighborhood_ring(o: (int, int))
    ensures
        neighborhood_of(o).len() == 8,
        forall|i: int| 0 <= i < 8 ==> chebyshev(o, #[trigger] neighborhood_of(o)[i]) == 1,
        neighborhood_of(o).no_duplicates(),
{
}

/// The orthogonal and diagonal neighborhoods of any origin split its Moore
/// neighborhood: together they hold the same coordinates, and none in common.
pub proof fn lemma_neighborhood_split(o: (int, int))
    ensures
        ortho_neighborhood_of(o).to_set() + diag_neighborhood_of(o).to_set()
            == neighborhood_of(o).to_set(),
        ortho_neighborhood_of(o).to_set().disjoint(diag_neighborhood_of(o).to_set()),
{
    let n = neighborhood_of(o);
    let h = ortho_neighborhood_of(o);
    let d = diag_neighborhood_of(o);
    assert(h.to_set() + d.to_set() =~= n.to_set()) by {
        assert forall|p: (int, int)| n.contains(p) implies h.contains(p) || d.contains(p) by {
            let i = choose|i: int| 0 <= i < n.len() && n[i] == p;
            if i == 0 { assert(h[0] == p); } else if i == 1 { assert(d[0] == p); }
            else if i == 2 { assert(h[1] == p); } else if i == 3 { assert(d[1] == p); }
            else if i == 4 { assert(h[2] == p); } else if i == 5 { assert(d[2] == p); }
            else if i == 6 { assert(h[3] == p); } else { assert(d[3] == p); }
        }
        assert forall|p: (int, int)| h.contains(p) || d.contains(p) implies n.contains(p) by {
            if h.contains(p) {
                let i = choose|i: int| 0 <= i < h.len() && h[i] == p;
                assert(n[2 * i] == p);
            } else {
                let i = choose|i: int| 0 <= i < d.len() && d[i] == p;
                assert(n[2 * i + 1] == p);
            }
        }
    }
    assert forall|p: (int, int)| h.contains(p) implies !d.contains(p) by {
        let i = choose|i: int| 0 <= i < h.len() && h[i] == p;
        assert(chebyshev(o, p) == 1);
    }
}

/// A line from a coordinate to itself is that coordinate alone.
pub proof fn lemma_line_single(a: (int, int), rule: FaultRule)
    ensures
        line_of(a, a, rule) == seq![a],
{
    lemma_point_in_box(a, a, rule, 0);
    assert(line_of(a, a, rule) =~= seq![a]);
}

/// Adding at most the divisor to a dividend raises the quotient by at most one.
proof fn lemma_div_step(x: int, s: int, d: int)
    requires
        0 <= x,
        0 <= s <= d,
        0 < d,
    ensures
        (x + s) / d == x / d || (x + s) / d == x / d + 1,
{
    lemma_fundamental_div_mod(x, d);
    lemma_mod_pos_bound(x, d);
    let (q, r) = (x / d, x % d);
    if r + s < d {
        assert(x + s == q * d + (r + s)) by (nonlinear_arith)
            requires
                x == d * q + r,
        ;
        lemma_fundamental_div_mod_converse(x + s, d, q, r + s);
    } else {
        assert(x + s == (q + 1) * d + (r + s - d)) by (nonlinear_arith)
            requires
                x == d * q + r,
        ;
        lemma_fundamental_div_mod_converse(x + s, d, q + 1, r + s - d);
    }
}

/// A trace takes at most one minor-axis step per major-axis step.
proof fn lemma_offset_step(rule: FaultRule, major: int, minor: int, i: int)
    requires
        0 <= minor <= major,
        0 <= i,
    ensures
        minor_offset(rule, major, minor, i + 1) == minor_offset(rule, major, minor, i)
            || minor_offset(rule, major, minor, i + 1) == minor_offset(rule, major, minor, i) + 1,
{
    if major > 0 {
        let lo: int = if rule == FaultRule::BelowZero { major - 1 } else { major };
        assert(2 * (i + 1) * minor + lo == 2 * i * minor + lo + 2 * minor) by (nonlinear_arith);
        assert(0 <= 2 * i * minor) by (nonlinear_arith)
            requires
                0 <= i,
                0 <= minor,
        ;
        lemma_div_step(2 * i * minor + lo, 2 * minor, 2 * major);
    }
}

/// A line from `a` to `b` has one coordinate more than the larger distance
/// along an axis, starts at `a`, ends at `b`, and moves one king move at a
/// time.
pub proof fn lemma_line_shape(a: (int, int), b: (int, int), rule: FaultRule)
    ensures
        line_of(a, b, rule).len() == chebyshev(a, b) + 1,
        line_of(a, b, rule)[0] == a,
        line_of(a, b, rule).last() == b,
        forall|i: int|
            0 <= i < line_of(a, b, rule).len() - 1 ==> chebyshev(
                #[trigger] line_of(a, b, rule)[i],
                line_of(a, b, rule)[i + 1],
            ) == 1,
{
    let s = line_of(a, b, rule);
    let (ma, mi) = (major_len(a, b), minor_len(a, b));
    lemma_point_in_box(a, b, rule, 0);
    lemma_point_in_box(a, b, rule, ma);
    assert forall|i: int| 0 <= i < s.len() - 1 implies chebyshev(#[trigger] s[i], s[i + 1]) == 1 by {
        let k = minor_offset(rule, ma, mi, i);
        lemma_offset_step(rule, ma, mi, i);
        lemma_step_along(a.0, b.0 - a.0, i);
        lemma_step_along(a.1, b.1 - a.1, i);
        lemma_step_along(a.0, b.0 - a.0, k);
        lemma_step_along(a.1, b.1 - a.1, k);
    }
}

/// Under the two rules the minor-axis steps of a trace and of the trace from
/// the other end add up to all of them.
proof fn lemma_offset_mirror(major: int, minor: int, j: int)
    requires
        0 <= minor <= major,
        0 <= j <= major,
    ensures
        minor_offset(FaultRule::BelowZero, major, minor, j) + minor_offset(
            FaultRule::AtOrBelowZero,
            major,
            minor,
            major - j,
        ) == minor,
{
    if major > 0 {
        let d = 2 * major;
        let u = 2 * j * minor + major - 1;
        assert(0 <= 2 * j * minor) by (nonlinear_arith)
            requires
                0 <= j,
                0 <= minor,
        ;
        lemma_fundamental_div_mod(u, d);
        lemma_mod_pos_bound(u, d);
        let (q, r) = (u / d, u % d);
        assert(2 * (major - j) * minor + major == (minor - q) * d + (d - 1 - r)) by (nonlinear_arith)
            requires
                u == d * q + r,
                u == 2 * j * minor + major - 1,
                d == 2 * major,
        ;
        lemma_fundamental_div_mod_converse(2 * (major - j) * minor + major, d, minor - q, d - 1 - r);
    }
}

proof fn lemma_sgn_abs(d: int)
    ensures
        d == abs(d) * sgn(d),
        sgn(-d) == -sgn(d),
        abs(-d) == abs(d),
{
}

/// Tracing from the other end under one rule gives the reverse of the trace
/// under the other rule.
pub proof fn lemma_line_reverse(a: (int, int), b: (int, int))
    ensures
        line_of(b, a, FaultRule::BelowZero) == line_of(a, b, FaultRule::AtOrBelowZero).reverse(),
        line_of(b, a, FaultRule::AtOrBelowZero) == line_of(a, b, FaultRule::BelowZero).reverse(),
{
    lemma_line_reverse_one_way(a, b);
    lemma_line_reverse_one_way(b, a);
    assert(line_of(a, b, FaultRule::BelowZero).reverse() =~= line_of(
        b,
        a,
        FaultRule::AtOrBelowZero,
    ).reverse().reverse());
}

proof fn lemma_line_reverse_one_way(a: (int, int), b: (int, int))
    ensures
        line_of(b, a, FaultRule::BelowZero) == line_of(a, b, FaultRule::AtOrBelowZero).reverse(),
{
    let (ma, mi) = (major_len(a, b), minor_len(a, b));
    lemma_sgn_abs(b.0 - a.0);
    lemma_sgn_abs(b.1 - a.1);
    assert(a.0 - b.0 == -(b.0 - a.0));
    assert(a.1 - b.1 == -(b.1 - a.1));
    let fwd = line_of(a, b, FaultRule::AtOrBelowZero);
    let back = line_of(b, a, FaultRule::BelowZero);
    assert forall|j: int| 0 <= j < back.len() implies back[j] == fwd.reverse()[j] by {
        let ks = minor_offset(FaultRule::BelowZero, ma, mi, j);
        let kn = minor_offset(FaultRule::AtOrBelowZero, ma, mi, ma - j);
        lemma_offset_mirror(ma, mi, j);
        let (sx, sy) = (sgn(b.0 - a.0), sgn(b.1 - a.1));
        if x_is_major(a, b) {
            assert(b.0 + j * (-sx) == a.0 + (ma - j) * sx) by (nonlinear_arith)
                requires
                    b.0 - a.0 == ma * sx,
            ;
            assert(b.1 + ks * (-sy) == a.1 + kn * sy) by (nonlinear_arith)
                requires
                    b.1 - a.1 == mi * sy,
                    ks + kn == mi,
            ;
        } else {
            assert(b.1 + j * (-sy) == a.1 + (ma - j) * sy) by (nonlinear_arith)
                requires
                    b.1 - a.1 == ma * sy,
            ;
            assert(b.0 + ks * (-sx) == a.0 + kn * sx) by (nonlinear_arith)
                requires
                    b.0 - a.0 == mi * sx,
                    ks + kn == mi,
            ;
        }
    }
    assert(back =~= fwd.reverse());
}

/// Both rules give the same trace along an axis or a diagonal.
proof fn lemma_line_rule_free(a: (int, int), b: (int, int))
    requires
        b.0 == a.0 || b.1 == a.1 || abs(b.0 - a.0) == abs(b.1 - a.1),
    ensures
        line_of(a, b, FaultRule::BelowZero) == line_of(a, b, FaultRule::AtOrBelowZero),
{
    let (ma, mi) = (major_len(a, b), minor_len(a, b));
    assert forall|i: int|
        0 <= i <= ma implies minor_offset(FaultRule::BelowZero, ma, mi, i) == minor_offset(
        FaultRule::AtOrBelowZero,
        ma,
        mi,
        i,
    ) by {
        if ma > 0 {
            if mi == 0 {
                lemma_fundamental_div_mod_converse(ma - 1, 2 * ma, 0, ma - 1);
                lemma_fundamental_div_mod_converse(ma, 2 * ma, 0, ma);
            } else {
                assert(2 * i * mi + ma == i * (2 * ma) + ma) by (nonlinear_arith)
                    requires
                        mi == ma,
                ;
                lemma_fundamental_div_mod_converse(2 * i * mi + ma - 1, 2 * ma, i, ma - 1);
                lemma_fundamental_div_mod_converse(2 * i * mi + ma, 2 * ma, i, ma);
            }
        }
    }
    assert(line_of(a, b, FaultRule::BelowZero) =~= line_of(a, b, FaultRule::AtOrBelowZero));
}

/// Along an axis or a diagonal, tracing from the other end gives the reverse
/// trace, under either rule.
pub proof fn lemma_line_reverse_straight(a: (int, int), b: (int, int), rule: FaultRule)
    requires
        b.0 == a.0 || b.1 == a.1 || abs(b.0 - a.0) == abs(b.1 - a.1),
    ensures
        line_of(b, a, rule) == line_of(a, b, rule).reverse(),
{
    lemma_line_reverse(a, b);
    lemma_line_rule_free(a, b);
    lemma_line_rule_free(b, a);
}

} // verus!
