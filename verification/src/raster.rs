use vstd::prelude::*;

verus! {

/// Absolute value of an integer.
pub open spec fn abs(a: int) -> int {
    if a < 0 { -a } else { a }
}

/// Step direction used when walking from `from` towards `to`: `1` when `from < to`, `-1` otherwise.
pub open spec fn step_toward(from: int, to: int) -> int {
    if from < to { 1 } else { -1 }
}

/// The larger of two integers.
pub open spec fn max(a: int, b: int) -> int {
    if a < b { b } else { a }
}

/// One step of the integer line walk: from position `(x, y)` with error term `err`,
/// horizontal distance `dx` (non-negative) and negated vertical distance `ndy`
/// (non-positive), the next position and error term.
pub open spec fn line_step(x: int, y: int, err: int, dx: int, ndy: int, sx: int, sy: int) -> (int, int, int) {
    let e1 = if 2 * err >= ndy { err + ndy } else { err };
    let nx = if 2 * err >= ndy { x + sx } else { x };
    let e2 = if 2 * err <= dx { e1 + dx } else { e1 };
    let ny = if 2 * err <= dx { y + sy } else { y };
    (nx, ny, e2)
}

/// The positions visited by the line walk from `(x, y)` until it reaches `(ex, ey)`
/// (which is not included), taking at most `fuel` steps.
pub open spec fn line_trace(
    x: int,
    y: int,
    err: int,
    ex: int,
    ey: int,
    dx: int,
    ndy: int,
    sx: int,
    sy: int,
    fuel: nat,
) -> Seq<(int, int)>
    decreases fuel,
{
    if fuel == 0 || (x == ex && y == ey) {
        Seq::empty()
    } else {
        let (nx, ny, ne) = line_step(x, y, err, dx, ndy, sx, sy);
        seq![(x, y)] + line_trace(nx, ny, ne, ex, ey, dx, ndy, sx, sy, (fuel - 1) as nat)
    }
}

/// The cells that drawing a line from `(x0, y0)` to `(x1, y1)` sets: the start, then every
/// position the walk passes through before it reaches the end point. The end point itself is
/// not drawn (unless it is the start).
pub open spec fn line_points(x0: int, y0: int, x1: int, y1: int) -> Seq<(int, int)> {
    let dx = abs(x1 - x0);
    let ndy = -abs(y1 - y0);
    seq![(x0, y0)] + line_trace(
        x0,
        y0,
        dx + ndy,
        x1,
        y1,
        dx,
        ndy,
        step_toward(x0, x1),
        step_toward(y0, y1),
        (abs(x1 - x0) + abs(y1 - y0)) as nat,
    )
}

/// The rows of `new` are those of `old`, with exactly the in-bounds cells that `pts` lists
/// (as `(column, row)`) set to `true`.
pub open spec fn painted(old: Seq<Seq<bool>>, new: Seq<Seq<bool>>, width: int, height: int, pts: Seq<(int, int)>) -> bool {
    &&& new.len() == old.len()
    &&& forall|r: int| 0 <= r < old.len() ==> #[trigger] new[r].len() == old[r].len()
    &&& forall|r: int, c: int|
        0 <= r < old.len() && 0 <= c < old[r].len() ==> #[trigger] new[r][c] == (old[r][c] || (0 <= c
            < width && 0 <= r < height && pts.contains((c, r))))
}

/// Whether `(x, y)` lies on a raster of the given size.
pub open spec fn in_bounds(x: int, y: int, width: int, height: int) -> bool {
    0 <= x < width && 0 <= y < height
}

/// Nothing painted yet: a grid is painted with no points over itself.
pub proof fn lemma_painted_none(g: Seq<Seq<bool>>, width: int, height: int)
    ensures
        painted(g, g, width, height, Seq::empty()),
{
}

/// Setting one more in-bounds cell extends the set of painted points by that cell.
pub proof fn lemma_painted_step(
    old: Seq<Seq<bool>>,
    mid: Seq<Seq<bool>>,
    new: Seq<Seq<bool>>,
    width: int,
    height: int,
    pts: Seq<(int, int)>,
    x: int,
    y: int,
)
    requires
        painted(old, mid, width, height, pts),
        old.len() == height,
        forall|r: int| 0 <= r < height ==> #[trigger] old[r].len() >= width,
        new == if in_bounds(x, y, width, height) {
            mid.update(y, mid[y].update(x, true))
        } else {
            mid
        },
    ensures
        painted(old, new, width, height, pts.push((x, y))),
{
    let npts = pts.push((x, y));
    assert forall|r: int, c: int| 0 <= r < old.len() && 0 <= c < old[r].len() implies #[trigger] new[r][c]
        == (old[r][c] || (0 <= c < width && 0 <= r < height && npts.contains((c, r)))) by {
        assert(npts.contains((c, r)) <==> (pts.contains((c, r)) || (c, r) == (x, y))) by {
            if pts.contains((c, r)) {
                let k = choose|k: int| 0 <= k < pts.len() && pts[k] == (c, r);
                assert(npts[k] == (c, r));
            }
            if (c, r) == (x, y) {
                assert(npts[pts.len() as int] == (c, r));
            }
            if npts.contains((c, r)) {
                let k = choose|k: int| 0 <= k < npts.len() && npts[k] == (c, r);
                if k < pts.len() {
                    assert(pts[k] == (c, r));
                }
            }
        }
    }
}

/// The relation that the walk keeps between its position and its error term, written over the
/// number of horizontal steps `u` and vertical steps `v` taken so far.
pub open spec fn walk_state(
    x0: int,
    y0: int,
    x: int,
    y: int,
    err: int,
    dx: int,
    dy: int,
    sx: int,
    sy: int,
    u: int,
    v: int,
) -> bool {
    &&& 0 <= u <= dx
    &&& 0 <= v <= dy
    &&& x == x0 + sx * u
    &&& y == y0 + sy * v
    &&& err == dx * (v + 1) - dy * (u + 1)
    &&& 2 * abs(err) <= 3 * max(dx, dy)
}

/// One step of the walk keeps the walk relation, moves at least one coordinate, and does not
/// pass the end point.
pub proof fn lemma_line_step(
    x0: int,
    y0: int,
    x: int,
    y: int,
    err: int,
    dx: int,
    dy: int,
    sx: int,
    sy: int,
    u: int,
    v: int,
)
    requires
        sx == 1 || sx == -1,
        sy == 1 || sy == -1,
        walk_state(x0, y0, x, y, err, dx, dy, sx, sy, u, v),
        !(u == dx && v == dy),
    ensures
        ({
            let (nx, ny, ne) = line_step(x, y, err, dx, -dy, sx, sy);
            let nu = if 2 * err >= -dy { u + 1 } else { u };
            let nv = if 2 * err <= dx { v + 1 } else { v };
            &&& walk_state(x0, y0, nx, ny, ne, dx, dy, sx, sy, nu, nv)
            &&& nu + nv > u + v
        }),
{
    let xs = 2 * err >= -dy;
    let ys = 2 * err <= dx;
    // At least one coordinate moves.
    assert(xs || ys);
    if u == dx {
        // The horizontal distance is covered: no horizontal step.
        assert(v + 1 <= dy);
        assert(dx * (v + 1) <= dx * dy) by (nonlinear_arith)
            requires
                v + 1 <= dy,
                0 <= dx,
        ;
        assert(err == dx * (v + 1) - dy * (dx + 1));
        assert(dy * (dx + 1) == dy * dx + dy) by (nonlinear_arith);
        assert(dx * dy == dy * dx) by (nonlinear_arith);
        assert(!xs);
    }
    if v == dy {
        assert(u + 1 <= dx);
        assert(dy * (u + 1) <= dy * dx) by (nonlinear_arith)
            requires
                u + 1 <= dx,
                0 <= dy,
        ;
        assert(dx * (dy + 1) == dx * dy + dx) by (nonlinear_arith);
        assert(dx * dy == dy * dx) by (nonlinear_arith);
        assert(!ys);
    }
    let nu = if xs { u + 1 } else { u };
    let nv = if ys { v + 1 } else { v };
    let e1 = if xs { err - dy } else { err };
    let e2 = if ys { e1 + dx } else { e1 };
    assert(dy * (u + 2) == dy * (u + 1) + dy) by (nonlinear_arith);
    assert(dx * (v + 2) == dx * (v + 1) + dx) by (nonlinear_arith);
    assert(e2 == dx * (nv + 1) - dy * (nu + 1));
    assert(sx * (u + 1) == sx * u + sx) by (nonlinear_arith);
    assert(sy * (v + 1) == sy * v + sy) by (nonlinear_arith);
}

/// Walking from a state that satisfies the walk relation, with enough fuel, never visits the
/// end point.
pub proof fn lemma_trace_never_visits_end(
    x0: int,
    y0: int,
    x: int,
    y: int,
    err: int,
    dx: int,
    dy: int,
    sx: int,
    sy: int,
    u: int,
    v: int,
    fuel: nat,
)
    requires
        sx == 1 || sx == -1,
        sy == 1 || sy == -1,
        walk_state(x0, y0, x, y, err, dx, dy, sx, sy, u, v),
        (dx - u) + (dy - v) <= fuel,
    ensures
        !line_trace(x, y, err, x0 + sx * dx, y0 + sy * dy, dx, -dy, sx, sy, fuel).contains(
            (x0 + sx * dx, y0 + sy * dy),
        ),
    decreases fuel,
{
    let ex = x0 + sx * dx;
    let ey = y0 + sy * dy;
    let t = line_trace(x, y, err, ex, ey, dx, -dy, sx, sy, fuel);
    if fuel == 0 || (x == ex && y == ey) {
    } else {
        assert(sx * u == sx * dx ==> u == dx) by (nonlinear_arith)
            requires
                sx == 1 || sx == -1,
        ;
        assert(sy * v == sy * dy ==> v == dy) by (nonlinear_arith)
            requires
                sy == 1 || sy == -1,
        ;
        assert(!(u == dx && v == dy));
        lemma_line_step(x0, y0, x, y, err, dx, dy, sx, sy, u, v);
        let (nx, ny, ne) = line_step(x, y, err, dx, -dy, sx, sy);
        let nu = if 2 * err >= -dy { u + 1 } else { u };
        let nv = if 2 * err <= dx { v + 1 } else { v };
        lemma_trace_never_visits_end(x0, y0, nx, ny, ne, dx, dy, sx, sy, nu, nv, (fuel - 1) as nat);
        let rest = line_trace(nx, ny, ne, ex, ey, dx, -dy, sx, sy, (fuel - 1) as nat);
        assert(t == seq![(x, y)] + rest);
        assert forall|i: int| 0 <= i < t.len() implies t[i] != (ex, ey) by {
            if i == 0 {
                assert(t[0] == (x, y));
            } else {
                assert(t[i] == rest[i - 1]);
            }
        }
    }
}

/// Two distinct raster positions that touch, sideways or diagonally.
pub open spec fn adjacent(a: (int, int), b: (int, int)) -> bool {
    a != b && abs(a.0 - b.0) <= 1 && abs(a.1 - b.1) <= 1
}

/// Whether `p` lies in the box spanned by `(x0, y0)` and `(x1, y1)`.
pub open spec fn in_box(p: (int, int), x0: int, y0: int, x1: int, y1: int) -> bool {
    &&& (x0 <= p.0 <= x1 || x1 <= p.0 <= x0)
    &&& (y0 <= p.1 <= y1 || y1 <= p.1 <= y0)
}

/// Whether `t` is a walk of touching positions that starts at `(x, y)`, stays in the box of
/// `(x0, y0)` and `(ex, ey)`, never visits `(ex, ey)`, and whose last position touches it.
pub open spec fn walk_to(t: Seq<(int, int)>, x: int, y: int, x0: int, y0: int, ex: int, ey: int) -> bool {
    &&& t.len() == 0 <==> (x == ex && y == ey)
    &&& t.len() > 0 ==> t[0] == (x, y)
    &&& t.len() > 0 ==> adjacent(t.last(), (ex, ey))
    &&& forall|i: int| 0 <= i < t.len() - 1 ==> #[trigger] adjacent(t[i], t[i + 1])
    &&& forall|i: int| 0 <= i < t.len() ==> #[trigger] in_box(t[i], x0, y0, ex, ey)
    &&& !t.contains((ex, ey))
}

/// Multiplying by a sign is negating or not.
pub proof fn lemma_sign_mul(s: int, a: int)
    requires
        s == 1 || s == -1,
    ensures
        s * a == if s == 1 { a } else { -a },
{
    assert(s * a == if s == 1 { a } else { -a }) by (nonlinear_arith)
        requires
            s == 1 || s == -1,
    ;
}

/// The walk from a state satisfying the walk relation, with enough fuel, is a walk of
/// touching positions inside the box that ends next to the end point.
proof fn lemma_trace_walk(
    x0: int,
    y0: int,
    x: int,
    y: int,
    err: int,
    dx: int,
    dy: int,
    sx: int,
    sy: int,
    u: int,
    v: int,
    fuel: nat,
)
    requires
        sx == 1 || sx == -1,
        sy == 1 || sy == -1,
        walk_state(x0, y0, x, y, err, dx, dy, sx, sy, u, v),
        (dx - u) + (dy - v) <= fuel,
    ensures
        walk_to(
            line_trace(x, y, err, x0 + sx * dx, y0 + sy * dy, dx, -dy, sx, sy, fuel),
            x,
            y,
            x0,
            y0,
            x0 + sx * dx,
            y0 + sy * dy,
        ),
    decreases fuel,
{
    let ex = x0 + sx * dx;
    let ey = y0 + sy * dy;
    let t = line_trace(x, y, err, ex, ey, dx, -dy, sx, sy, fuel);
    lemma_sign_mul(sx, u);
    lemma_sign_mul(sy, v);
    lemma_sign_mul(sx, dx);
    lemma_sign_mul(sy, dy);
    if x == ex && y == ey {
        if fuel > 0 {
            assert(t =~= Seq::<(int, int)>::empty());
        }
    } else {
        assert(!(u == dx && v == dy));
        assert(fuel > 0);
        lemma_line_step(x0, y0, x, y, err, dx, dy, sx, sy, u, v);
        let (nx, ny, ne) = line_step(x, y, err, dx, -dy, sx, sy);
        let nu = if 2 * err >= -dy { u + 1 } else { u };
        let nv = if 2 * err <= dx { v + 1 } else { v };
        lemma_sign_mul(sx, nu);
        lemma_sign_mul(sy, nv);
        lemma_trace_walk(x0, y0, nx, ny, ne, dx, dy, sx, sy, nu, nv, (fuel - 1) as nat);
        lemma_trace_never_visits_end(x0, y0, x, y, err, dx, dy, sx, sy, u, v, fuel);
        let rest = line_trace(nx, ny, ne, ex, ey, dx, -dy, sx, sy, (fuel - 1) as nat);
        assert(t == seq![(x, y)] + rest);
        assert(adjacent((x, y), (nx, ny)));
        if rest.len() == 0 {
            assert(t.last() == (x, y));
        } else {
            assert(t.last() == rest.last());
        }
        assert forall|i: int| 0 <= i < t.len() - 1 implies #[trigger] adjacent(t[i], t[i + 1]) by {
            if i == 0 {
                assert(rest.len() > 0);
                assert(t[1] == rest[0]);
                assert(rest[0] == (nx, ny));
            } else {
                let k = i - 1;
                assert(t[i] == rest[k]);
                assert(t[i + 1] == rest[k + 1]);
                assert(0 <= k < rest.len() - 1);
                assert(adjacent(rest[k], rest[k + 1]));
            }
        }
        assert forall|i: int| 0 <= i < t.len() implies #[trigger] in_box(t[i], x0, y0, ex, ey) by {
            if i > 0 {
                assert(t[i] == rest[i - 1]);
            }
        }
    }
}

/// The dots that drawing a line sets are the start point, followed by a walk of touching
/// positions from the start that stays in the box spanned by the two end points, never
/// reaches the end point and stops next to it (empty when the start is the end).
pub proof fn lemma_line_is_connected_walk(x0: int, y0: int, x1: int, y1: int)
    ensures
        ({
            let p = line_points(x0, y0, x1, y1);
            &&& p[0] == (x0, y0)
            &&& walk_to(p.drop_first(), x0, y0, x0, y0, x1, y1)
        }),
{
    let dx = abs(x1 - x0);
    let dy = abs(y1 - y0);
    let sx = step_toward(x0, x1);
    let sy = step_toward(y0, y1);
    lemma_sign_mul(sx, dx);
    lemma_sign_mul(sy, dy);
    lemma_sign_mul(sx, 0);
    lemma_sign_mul(sy, 0);
    assert(dx * (0 + 1) - dy * (0 + 1) == dx - dy) by (nonlinear_arith);
    assert(walk_state(x0, y0, x0, y0, dx - dy, dx, dy, sx, sy, 0, 0));
    lemma_trace_walk(x0, y0, x0, y0, dx - dy, dx, dy, sx, sy, 0, 0, (dx + dy) as nat);
    let p = line_points(x0, y0, x1, y1);
    assert(p.drop_first() =~= line_trace(x0, y0, dx - dy, x1, y1, dx, -dy, sx, sy, (dx + dy) as nat));
}

} // verus!
