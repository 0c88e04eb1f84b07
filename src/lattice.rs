//! One step of lattice traversal: from a point in a cell along a direction to
//! the first face of the cell that the ray reaches.
use vstd::prelude::*;
use vstd::arithmetic::div_mod::{lemma_div_by_multiple, lemma_div_is_ordered, lemma_div_pos_is_pos};

verus! {

/// Length of one cell edge in position units.
pub const UNIT: u64 = 65536;

/// Largest magnitude of one direction component.
pub const MAX_COMPONENT: i64 = 1048576;

/// A position inside the closed unit cube `[0, UNIT]^3`.
pub open spec fn in_cell(p: [u64; 3]) -> bool {
    p@[0] <= UNIT && p@[1] <= UNIT && p@[2] <= UNIT
}

/// A non-zero direction whose components are bounded by `MAX_COMPONENT`.
pub open spec fn valid_direction(d: [i64; 3]) -> bool {
    &&& -MAX_COMPONENT <= d@[0] <= MAX_COMPONENT
    &&& -MAX_COMPONENT <= d@[1] <= MAX_COMPONENT
    &&& -MAX_COMPONENT <= d@[2] <= MAX_COMPONENT
    &&& (d@[0] != 0 || d@[1] != 0 || d@[2] != 0)
}

/// Magnitude of the direction along axis `a`.
pub open spec fn speed(d: [i64; 3], a: int) -> int {
    if d@[a] >= 0 {
        d@[a] as int
    } else {
        -(d@[a] as int)
    }
}

/// Distance from `p` to the face that the ray heads for along axis `a`:
/// face 1 when moving up the axis, face 0 otherwise.
pub open spec fn gap(p: [u64; 3], d: [i64; 3], a: int) -> int {
    if d@[a] > 0 {
        UNIT - p@[a]
    } else {
        p@[a] as int
    }
}

/// The ray reaches the face on axis `a` strictly before any face on axis `b`.
/// The times are `gap / speed`; they are compared by cross-multiplying, and an
/// axis the ray does not move along is never reached.
pub open spec fn reaches_before(p: [u64; 3], d: [i64; 3], a: int, b: int) -> bool {
    d@[a] != 0 && (d@[b] == 0 || gap(p, d, a) * speed(d, b) < gap(p, d, b) * speed(d, a))
}

/// The ray reaches the face on axis `a` no later than any face on axis `b`.
pub open spec fn reaches_by(p: [u64; 3], d: [i64; 3], a: int, b: int) -> bool {
    d@[a] != 0 && (d@[b] == 0 || gap(p, d, a) * speed(d, b) <= gap(p, d, b) * speed(d, a))
}

/// Axis `a` is the one crossed first: no axis is reached earlier, and ties go
/// to the lowest-indexed axis.
pub open spec fn first_crossed(p: [u64; 3], d: [i64; 3], a: int) -> bool {
    &&& 0 <= a < 3
    &&& d@[a] != 0
    &&& forall|b: int| 0 <= b < a ==> #[trigger] reaches_before(p, d, a, b)
    &&& forall|b: int| a < b < 3 ==> #[trigger] reaches_by(p, d, a, b)
}

/// The axis crossed first, found by scanning the axes in order and keeping a
/// later one only when it is reached strictly earlier.
pub open spec fn crossing_axis(p: [u64; 3], d: [i64; 3]) -> int {
    let a0: int = if d@[0] != 0 { 0 } else if d@[1] != 0 { 1 } else { 2 };
    let a1: int = if a0 < 1 && reaches_before(p, d, 1, a0) { 1 } else { a0 };
    if a1 < 2 && reaches_before(p, d, 2, a1) { 2 } else { a1 }
}

/// How far the ray moves along axis `b` while it reaches the face on axis `a`,
/// rounded toward zero.
pub open spec fn shift(p: [u64; 3], d: [i64; 3], a: int, b: int) -> int {
    gap(p, d, a) * speed(d, b) / speed(d, a)
}

/// Coordinate `b` after crossing the face on axis `a`: the crossed axis
/// re-enters the neighbouring cell at its opposite face.
pub open spec fn moved_coord(p: [u64; 3], d: [i64; 3], a: int, b: int) -> int {
    if b == a {
        if d@[a] > 0 {
            0
        } else {
            UNIT as int
        }
    } else if d@[b] >= 0 {
        p@[b] + shift(p, d, a, b)
    } else {
        p@[b] - shift(p, d, a, b)
    }
}

/// The position, in the neighbouring cell's frame, after crossing the first face.
pub open spec fn advanced(p: [u64; 3], d: [i64; 3]) -> [u64; 3] {
    let a = crossing_axis(p, d);
    [
        moved_coord(p, d, a, 0) as u64,
        moved_coord(p, d, a, 1) as u64,
        moved_coord(p, d, a, 2) as u64,
    ]
}

/// Result of one traversal step.
pub struct Crossing {
    /// Position in the neighbouring cell.
    pub position: [u64; 3],
    /// Axis whose face was crossed.
    pub axis: usize,
    /// Whether the ray crossed toward the positive end of the axis.
    pub positive: bool,
    /// Distance to the face along the crossed axis; the parameter of the
    /// crossing is `gap / speed`.
    pub gap: u64,
    /// Magnitude of the direction along the crossed axis.
    pub speed: u64,
}

proof fn lemma_cross_order(ga: int, sa: int, gb: int, sb: int, gc: int, sc: int)
    requires
        sa > 0,
        sb > 0,
        sc > 0,
        ga >= 0,
        gb >= 0,
        gc >= 0,
    ensures
        ga * sb <= gb * sa && gb * sc <= gc * sb ==> ga * sc <= gc * sa,
        ga * sb < gb * sa && gb * sc <= gc * sb ==> ga * sc < gc * sa,
        ga * sb <= gb * sa && gb * sc < gc * sb ==> ga * sc < gc * sa,
{
    if ga * sb <= gb * sa && gb * sc <= gc * sb {
        assert(ga * sc * sb <= gc * sa * sb) by (nonlinear_arith)
            requires ga * sb <= gb * sa, gb * sc <= gc * sb, sa > 0, sc > 0;
        assert(ga * sc <= gc * sa) by (nonlinear_arith)
            requires ga * sc * sb <= gc * sa * sb, sb > 0;
    }
    if ga * sb < gb * sa && gb * sc <= gc * sb {
        assert(ga * sc * sb < gc * sa * sb) by (nonlinear_arith)
            requires ga * sb < gb * sa, gb * sc <= gc * sb, sa > 0, sc > 0;
        assert(ga * sc < gc * sa) by (nonlinear_arith)
            requires ga * sc * sb < gc * sa * sb, sb > 0;
    }
    if ga * sb <= gb * sa && gb * sc < gc * sb {
        assert(ga * sc * sb < gc * sa * sb) by (nonlinear_arith)
            requires ga * sb <= gb * sa, gb * sc < gc * sb, sa > 0, sc > 0;
        assert(ga * sc < gc * sa) by (nonlinear_arith)
            requires ga * sc * sb < gc * sa * sb, sb > 0;
    }
}

proof fn lemma_orders_transitive(p: [u64; 3], d: [i64; 3])
    requires
        in_cell(p),
    ensures
        forall|a: int, b: int, c: int|
            0 <= a < 3 && 0 <= b < 3 && 0 <= c < 3 && d@[b] != 0 ==> {
                &&& (reaches_by(p, d, a, b) && reaches_by(p, d, b, c) ==> reaches_by(p, d, a, c))
                &&& (reaches_before(p, d, a, b) && reaches_by(p, d, b, c) ==> reaches_before(p, d, a, c))
                &&& (reaches_by(p, d, a, b) && reaches_before(p, d, b, c) ==> reaches_before(p, d, a, c))
            },
{
    assert forall|a: int, b: int, c: int|
        0 <= a < 3 && 0 <= b < 3 && 0 <= c < 3 && d@[b] != 0 implies {
            &&& (reaches_by(p, d, a, b) && reaches_by(p, d, b, c) ==> reaches_by(p, d, a, c))
            &&& (reaches_before(p, d, a, b) && reaches_by(p, d, b, c) ==> reaches_before(p, d, a, c))
            &&& (reaches_by(p, d, a, b) && reaches_before(p, d, b, c) ==> reaches_before(p, d, a, c))
        } by {
        if d@[a] != 0 && d@[c] != 0 {
            lemma_cross_order(
                gap(p, d, a), speed(d, a), gap(p, d, b), speed(d, b), gap(p, d, c), speed(d, c),
            );
        }
    }
}

/// The scan of `crossing_axis` finds the axis crossed first.
pub proof fn lemma_crossing_axis_is_first(p: [u64; 3], d: [i64; 3])
    requires
        in_cell(p),
        valid_direction(d),
    ensures
        first_crossed(p, d, crossing_axis(p, d)),
{
    lemma_orders_transitive(p, d);
    let a = crossing_axis(p, d);
    assert(forall|b: int| 0 <= b < a ==> #[trigger] reaches_before(p, d, a, b));
    assert(forall|b: int| a < b < 3 ==> #[trigger] reaches_by(p, d, a, b));
}

/// Only one axis is crossed first: the tie-break leaves no choice.
pub proof fn lemma_first_crossed_unique(p: [u64; 3], d: [i64; 3], a: int, b: int)
    requires
        first_crossed(p, d, a),
        first_crossed(p, d, b),
    ensures
        a == b,
{
    if a < b {
        assert(reaches_before(p, d, b, a));
        assert(reaches_by(p, d, a, b));
    } else if b < a {
        assert(reaches_before(p, d, a, b));
        assert(reaches_by(p, d, b, a));
    }
}

proof fn lemma_speed_gap_bounds(p: [u64; 3], d: [i64; 3], a: int, b: int)
    requires
        in_cell(p),
        valid_direction(d),
        0 <= a < 3,
        0 <= b < 3,
    ensures
        0 <= gap(p, d, a) <= UNIT,
        0 <= speed(d, b) <= MAX_COMPONENT,
        0 <= gap(p, d, a) * speed(d, b) <= UNIT * MAX_COMPONENT,
{
    let g = gap(p, d, a);
    let s = speed(d, b);
    assert(0 <= g * s <= UNIT * MAX_COMPONENT) by (nonlinear_arith)
        requires 0 <= g <= UNIT, 0 <= s <= MAX_COMPONENT;
}

/// Along every other axis the ray stays inside the cell while it reaches the
/// first face.
pub proof fn lemma_shift_within_gap(p: [u64; 3], d: [i64; 3], a: int, b: int)
    requires
        in_cell(p),
        valid_direction(d),
        first_crossed(p, d, a),
        0 <= b < 3,
        b != a,
    ensures
        0 <= shift(p, d, a, b),
        d@[b] != 0 ==> shift(p, d, a, b) <= gap(p, d, b),
        d@[b] == 0 ==> shift(p, d, a, b) == 0,
        0 <= moved_coord(p, d, a, b) <= UNIT,
{
    lemma_speed_gap_bounds(p, d, a, b);
    let x = gap(p, d, a) * speed(d, b);
    let s = speed(d, a);
    lemma_div_pos_is_pos(x, s);
    if d@[b] != 0 {
        if b < a {
            assert(reaches_before(p, d, a, b));
        } else {
            assert(reaches_by(p, d, a, b));
        }
        let y = gap(p, d, b);
        assert(x <= y * s);
        lemma_div_is_ordered(x, y * s, s);
        lemma_div_by_multiple(y, s);
    } else {
        let g = gap(p, d, a);
        assert(speed(d, b) == 0);
        assert(x == 0) by (nonlinear_arith)
            requires x == g * speed(d, b), speed(d, b) == 0;
    }
}

fn speed_of(d: [i64; 3], a: usize) -> (r: u64)
    requires
        valid_direction(d),
        a < 3,
    ensures
        r == speed(d, a as int),
{
    if d[a] >= 0 {
        d[a] as u64
    } else {
        (-d[a]) as u64
    }
}

fn gap_of(p: [u64; 3], d: [i64; 3], a: usize) -> (r: u64)
    requires
        in_cell(p),
        a < 3,
    ensures
        r == gap(p, d, a as int),
{
    if d[a] > 0 {
        UNIT - p[a]
    } else {
        p[a]
    }
}

fn sooner(p: [u64; 3], d: [i64; 3], a: usize, b: usize) -> (r: bool)
    requires
        in_cell(p),
        valid_direction(d),
        a < 3,
        b < 3,
    ensures
        r == reaches_before(p, d, a as int, b as int),
{
    if d[a] == 0 {
        return false;
    }
    if d[b] == 0 {
        return true;
    }
    proof {
        lemma_speed_gap_bounds(p, d, a as int, b as int);
        lemma_speed_gap_bounds(p, d, b as int, a as int);
    }
    gap_of(p, d, a) * speed_of(d, b) < gap_of(p, d, b) * speed_of(d, a)
}

fn moved_coord_of(p: [u64; 3], d: [i64; 3], a: usize, b: usize) -> (r: u64)
    requires
        in_cell(p),
        valid_direction(d),
        first_crossed(p, d, a as int),
        b < 3,
    ensures
        r == moved_coord(p, d, a as int, b as int),
        r <= UNIT,
{
    if b == a {
        if d[a] > 0 {
            0
        } else {
            UNIT
        }
    } else {
        proof {
            lemma_speed_gap_bounds(p, d, a as int, b as int);
            lemma_shift_within_gap(p, d, a as int, b as int);
        }
        let s = gap_of(p, d, a) * speed_of(d, b) / speed_of(d, a);
        if d[b] >= 0 {
            p[b] + s
        } else {
            p[b] - s
        }
    }
}

/// One traversal step: finds the face of the cell that the ray from `p` along
/// `d` reaches first (ties go to the lowest axis), and the position at which
/// the ray enters the neighbouring cell across that face.
pub fn advance(p: [u64; 3], d: [i64; 3]) -> (r: Crossing)
    requires
        in_cell(p),
        valid_direction(d),
    ensures
        r.axis == crossing_axis(p, d),
        first_crossed(p, d, r.axis as int),
        r.positive == (d@[r.axis as int] > 0),
        r.position == advanced(p, d),
        in_cell(r.position),
        r.gap == gap(p, d, r.axis as int),
        r.speed == speed(d, r.axis as int),
        r.speed > 0,
{
    let mut a: usize = if d[0] != 0 {
        0
    } else if d[1] != 0 {
        1
    } else {
        2
    };
    if a < 1 && sooner(p, d, 1, a) {
        a = 1;
    }
    if a < 2 && sooner(p, d, 2, a) {
        a = 2;
    }
    proof {
        lemma_crossing_axis_is_first(p, d);
    }
    let position = [moved_coord_of(p, d, a, 0), moved_coord_of(p, d, a, 1), moved_coord_of(p, d, a, 2)];
    Crossing { position, axis: a, positive: d[a] > 0, gap: gap_of(p, d, a), speed: speed_of(d, a) }
}

} // verus!
