//! The path that the raster canvas follows from one end point of a segment to
//! the other: the classic integer error-accumulation (Bresenham) walk.

use vstd::prelude::*;
use vstd::arithmetic::div_mod::lemma_fundamental_div_mod_converse;

verus! {

/// Distance `|b - a|` along one axis.
pub open spec fn span(a: int, b: int) -> int {
    if a <= b {
        b - a
    } else {
        a - b
    }
}

/// Unit step taken along one axis when walking from `a` towards `b`.
pub open spec fn unit(a: int, b: int) -> int {
    if a < b {
        1
    } else {
        -1
    }
}

/// The walk's initial state: the start point and the error term `dx + dy`.
pub open spec fn trace_start(x1: int, y1: int, x2: int, y2: int) -> (int, int, int) {
    (x1, y1, span(x1, x2) - span(y1, y2))
}

/// One step of the walk. With `e2 = 2 * err`, the walk moves along x when
/// `e2 >= dy` and along y when `e2 <= dx` (`dx = |x2 - x1|`,
/// `dy = -|y2 - y1|`), updating the error term. At the end point it stays.
pub open spec fn trace_step(s: (int, int, int), x1: int, y1: int, x2: int, y2: int) -> (int, int, int) {
    let dx = span(x1, x2);
    let dy = -span(y1, y2);
    if s.0 == x2 && s.1 == y2 {
        s
    } else {
        let e2 = 2 * s.2;
        let x = if e2 >= dy {
            s.0 + unit(x1, x2)
        } else {
            s.0
        };
        let e = if e2 >= dy {
            s.2 + dy
        } else {
            s.2
        };
        let y = if e2 <= dx {
            s.1 + unit(y1, y2)
        } else {
            s.1
        };
        let e = if e2 <= dx {
            e + dx
        } else {
            e
        };
        (x, y, e)
    }
}

/// The state after `k` steps.
pub open spec fn trace_state(x1: int, y1: int, x2: int, y2: int, k: nat) -> (int, int, int)
    decreases k,
{
    if k == 0 {
        trace_start(x1, y1, x2, y2)
    } else {
        trace_step(trace_state(x1, y1, x2, y2, (k - 1) as nat), x1, y1, x2, y2)
    }
}

/// The point reached after `k` steps.
pub open spec fn trace_point(x1: int, y1: int, x2: int, y2: int, k: int) -> (int, int) {
    let s = trace_state(x1, y1, x2, y2, k as nat);
    (s.0, s.1)
}

/// Whether the `k`-th point belongs to the path: it is the start point, or the
/// walk had not yet arrived at `(x2, y2)` one step earlier. The walk always
/// arrives within `|x2 - x1| + |y2 - y1|` steps.
pub open spec fn on_path(x1: int, y1: int, x2: int, y2: int, k: int) -> bool {
    0 <= k <= span(x1, x2) + span(y1, y2) && (k == 0 || trace_point(x1, y1, x2, y2, k - 1) != (
    x2,
    y2,
    ))
}

/// Whether the `k`-th point of a line dashed in runs of `n` is painted: runs
/// of `n` painted points alternate with runs of `n` skipped ones, starting
/// with a painted run. A run length of 0 paints every point.
pub open spec fn dash_on(k: int, n: int) -> bool {
    n == 0 || (k / n) % 2 == 0
}

/// The points of the path whose dash pattern is on.
pub open spec fn dashed_points(x1: int, y1: int, x2: int, y2: int, n: int) -> Set<(int, int)> {
    Set::new(
        |p: (int, int)|
            exists|k: int|
                on_path(x1, y1, x2, y2, k) && dash_on(k, n) && #[trigger] trace_point(
                    x1,
                    y1,
                    x2,
                    y2,
                    k,
                ) == p,
    )
}

/// The pixel `d` rows below the `k`-th point of the path.
pub open spec fn stripe_point(x1: int, y1: int, x2: int, y2: int, k: int, d: int) -> (int, int) {
    (trace_point(x1, y1, x2, y2, k).0, trace_point(x1, y1, x2, y2, k).1 + d)
}

/// The points of a thick stroke: for every point of the path before the end,
/// the five pixels from two above to two below it; the end point itself.
pub open spec fn thick_points(x1: int, y1: int, x2: int, y2: int) -> Set<(int, int)> {
    Set::new(
        |p: (int, int)|
            p == (x2, y2) || exists|k: int, d: int|
                on_path(x1, y1, x2, y2, k) && -2 <= d <= 2 && trace_point(x1, y1, x2, y2, k) != (
                x2,
                y2,
                ) && p == #[trigger] stripe_point(x1, y1, x2, y2, k, d),
    )
}

/// What the walk keeps true of the state after `k` steps: with `i` steps
/// taken along x and `j` along y, neither overshoots, and the error term is
/// `dx * (1 + j) - |dy| * (1 + i)`, bounded by `-2|dy|` and `2dx`.
pub open spec fn walk_inv(x1: int, y1: int, x2: int, y2: int, s: (int, int, int), k: nat) -> bool {
    let a = span(x1, x2);
    let b = span(y1, y2);
    let i = span(x1, s.0);
    let j = span(y1, s.1);
    &&& i <= a
    &&& j <= b
    &&& s.0 == (if x1 < x2 {
        x1 + i
    } else {
        x1 - i
    })
    &&& s.1 == (if y1 < y2 {
        y1 + j
    } else {
        y1 - j
    })
    &&& s.2 == a * (1 + j) - b * (1 + i)
    &&& -2 * b <= s.2 <= 2 * a
    &&& k <= i + j
}

/// The walk invariant holds after every number of steps taken before the end
/// point is reached, and, counting steps by the progress made, after any
/// number of steps.
pub proof fn lemma_walk(x1: int, y1: int, x2: int, y2: int, k: nat)
    ensures
        walk_inv(x1, y1, x2, y2, trace_state(x1, y1, x2, y2, k), k) || trace_point(
            x1,
            y1,
            x2,
            y2,
            k as int,
        ) == (x2, y2),
        walk_inv(x1, y1, x2, y2, trace_state(x1, y1, x2, y2, k), span(
            x1,
            trace_state(x1, y1, x2, y2, k).0,
        ) as nat + span(y1, trace_state(x1, y1, x2, y2, k).1) as nat),
    decreases k,
{
    let a = span(x1, x2);
    let b = span(y1, y2);
    if k == 0 {
        assert(a * (1 + 0) - b * (1 + 0) == a - b) by (nonlinear_arith);
    } else {
        lemma_walk(x1, y1, x2, y2, (k - 1) as nat);
        let s = trace_state(x1, y1, x2, y2, (k - 1) as nat);
        if !(s.0 == x2 && s.1 == y2) {
            lemma_step_inv(x1, y1, x2, y2, s, (k - 1) as nat);
        }
    }
}

/// One step from a state that satisfies the walk invariant, away from the
/// end point, keeps it and takes one or two axis steps.
pub proof fn lemma_step_inv(x1: int, y1: int, x2: int, y2: int, s: (int, int, int), k: nat)
    requires
        walk_inv(x1, y1, x2, y2, s, k),
        !(s.0 == x2 && s.1 == y2),
    ensures
        ({
            let t = trace_step(s, x1, y1, x2, y2);
            let m = span(x1, t.0) + span(y1, t.1);
            &&& walk_inv(x1, y1, x2, y2, t, (k + 1) as nat)
            &&& walk_inv(x1, y1, x2, y2, t, m as nat)
            &&& m > span(x1, s.0) + span(y1, s.1)
        }),
{
    let a = span(x1, x2);
    let b = span(y1, y2);
    let i = span(x1, s.0);
    let j = span(y1, s.1);
    let e = s.2;
    let e2 = 2 * e;
    if i == a {
        // x is done, so y is not: no further x step.
        assert(j + 1 <= b);
        assert(a * (1 + j) <= a * b) by (nonlinear_arith)
            requires
                j + 1 <= b,
                a >= 0,
        ;
        assert(b * (1 + i) == b * (1 + a)) ;
        assert(b * (1 + a) == b + a * b) by (nonlinear_arith);
        assert(e2 < -b);
    }
    if j == b {
        assert(i + 1 <= a);
        assert(b * (1 + i) <= a * b) by (nonlinear_arith)
            requires
                i + 1 <= a,
                b >= 0,
        ;
        assert(a * (1 + j) == a * (1 + b));
        assert(a * (1 + b) == a + a * b) by (nonlinear_arith);
        assert(e2 > a);
    }
    assert(b * (1 + (i + 1)) == b * (1 + i) + b) by (nonlinear_arith);
    assert(a * (1 + (j + 1)) == a * (1 + j) + a) by (nonlinear_arith);
}

/// Once the walk is at the end point it stays there.
pub proof fn lemma_trace_stays(x1: int, y1: int, x2: int, y2: int, k: nat, m: nat)
    requires
        k <= m,
        trace_point(x1, y1, x2, y2, k as int) == (x2, y2),
    ensures
        trace_state(x1, y1, x2, y2, m) == trace_state(x1, y1, x2, y2, k),
    decreases m - k,
{
    if k < m {
        lemma_trace_stays(x1, y1, x2, y2, k, (m - 1) as nat);
    }
}

/// The walk reaches the end point within `|x2 - x1| + |y2 - y1|` steps.
pub proof fn lemma_trace_arrives(x1: int, y1: int, x2: int, y2: int)
    ensures
        trace_point(x1, y1, x2, y2, span(x1, x2) + span(y1, y2)) == (x2, y2),
{
    let n = (span(x1, x2) + span(y1, y2)) as nat;
    lemma_walk(x1, y1, x2, y2, n);
    let s = trace_state(x1, y1, x2, y2, n);
    if walk_inv(x1, y1, x2, y2, s, n) {
        assert(span(x1, s.0) == span(x1, x2));
        assert(span(y1, s.1) == span(y1, y2));
    }
}

/// How the dash counter advances: the position `k % n` within the current
/// run wraps to 0 exactly when a run is complete, and then the run index
/// `k / n` moves on by one.
pub proof fn lemma_dash_next(k: int, n: int)
    requires
        0 <= k,
        0 < n,
    ensures
        k % n + 1 == n ==> (k + 1) % n == 0 && (k + 1) / n == k / n + 1,
        k % n + 1 < n ==> (k + 1) % n == k % n + 1 && (k + 1) / n == k / n,
{
    let q = k / n;
    let r = k % n;
    vstd::arithmetic::div_mod::lemma_fundamental_div_mod(k, n);
    if r + 1 == n {
        assert(k + 1 == (q + 1) * n + 0) by (nonlinear_arith)
            requires
                k == n * q + r,
                r + 1 == n,
        ;
        lemma_fundamental_div_mod_converse(k + 1, n, q + 1, 0);
    } else {
        assert(k + 1 == q * n + (r + 1)) by (nonlinear_arith)
            requires
                k == n * q + r,
        ;
        lemma_fundamental_div_mod_converse(k + 1, n, q, r + 1);
    }
}

/// The points painted in the first `k` steps of a line dashed in runs of `n`.
pub open spec fn drawn_upto(x1: int, y1: int, x2: int, y2: int, n: int, k: int) -> Set<(int, int)> {
    Set::new(
        |p: (int, int)|
            exists|m: int|
                0 <= m < k && dash_on(m, n) && #[trigger] trace_point(x1, y1, x2, y2, m) == p,
    )
}

/// The stripes painted in the first `k` steps of a thick line.
pub open spec fn striped_upto(x1: int, y1: int, x2: int, y2: int, k: int) -> Set<(int, int)> {
    Set::new(
        |p: (int, int)|
            exists|m: int, d: int|
                0 <= m < k && -2 <= d <= 2 && p == #[trigger] stripe_point(x1, y1, x2, y2, m, d),
    )
}

/// Where the walk first arrives at the end point after `k` steps, the path
/// is made of exactly the points of steps `0..=k`.
pub proof fn lemma_on_path_prefix(x1: int, y1: int, x2: int, y2: int, k: nat)
    requires
        k <= span(x1, x2) + span(y1, y2),
        trace_point(x1, y1, x2, y2, k as int) == (x2, y2),
        forall|m: int| 0 <= m < k ==> trace_point(x1, y1, x2, y2, m) != (x2, y2),
    ensures
        forall|m: int| on_path(x1, y1, x2, y2, m) <==> 0 <= m <= k,
{
    assert forall|m: int| on_path(x1, y1, x2, y2, m) <==> 0 <= m <= k by {
        if k < m && m <= span(x1, x2) + span(y1, y2) {
            lemma_trace_stays(x1, y1, x2, y2, k, (m - 1) as nat);
        }
    }
}

/// A segment whose end points coincide is the single point itself, in every
/// dash pattern.
pub proof fn lemma_point_line(x: int, y: int, n: int)
    ensures
        dashed_points(x, y, x, y, n) == set![(x, y)],
{
    let dp = dashed_points(x, y, x, y, n);
    assert(trace_point(x, y, x, y, 0) == (x, y));
    assert(on_path(x, y, x, y, 0));
    assert(dash_on(0, n)) by {
        if n != 0 {
            assert(0int / n == 0);
        }
    }
    assert forall|p: (int, int)| dp.contains(p) <==> p == (x, y) by {
        if dp.contains(p) {
            let k = choose|k: int|
                on_path(x, y, x, y, k) && dash_on(k, n) && #[trigger] trace_point(x, y, x, y, k) == p;
            assert(k == 0);
        }
    }
    assert(dp =~= set![(x, y)]);
}

/// Runs of a dashed line alternate: for runs of `n`, the `n` points from
/// index `2jn` are painted and the `n` points from index `2jn + n` are not.
pub proof fn lemma_dash_runs(n: int, j: int, k: int)
    requires
        0 < n,
        0 <= j,
        0 <= k < n,
    ensures
        dash_on(2 * j * n + k, n),
        !dash_on(2 * j * n + n + k, n),
{
    assert(2 * j * n + k == (2 * j) * n + k) by (nonlinear_arith);
    lemma_fundamental_div_mod_converse(2 * j * n + k, n, 2 * j, k);
    assert(2 * j * n + n + k == (2 * j + 1) * n + k) by (nonlinear_arith);
    lemma_fundamental_div_mod_converse(2 * j * n + n + k, n, 2 * j + 1, k);
}

/// The number of painted indices among the first `len` points of a line
/// dashed in runs of `n`.
pub open spec fn dash_count(len: nat, n: int) -> nat
    decreases len,
{
    if len == 0 {
        0
    } else {
        dash_count((len - 1) as nat, n) + if dash_on(len - 1, n) {
            1nat
        } else {
            0nat
        }
    }
}

/// Of the first `len` points of a line dashed in runs of `n`, with
/// `len = 2n * q + r`, exactly `q * n + min(r, n)` are painted.
pub proof fn lemma_dash_count(len: nat, n: int)
    requires
        0 < n,
    ensures
        dash_count(len, n) == ((len as int) / (2 * n)) * n + if (len as int) % (2 * n) < n {
            (len as int) % (2 * n)
        } else {
            n
        },
    decreases len,
{
    let m = 2 * n;
    if len == 0 {
        assert(0int / m == 0 && 0int % m == 0) by (nonlinear_arith)
            requires m > 0;
    } else {
        let p = (len - 1) as nat;
        lemma_dash_count(p, n);
        let q = (p as int) / m;
        let r = (p as int) % m;
        vstd::arithmetic::div_mod::lemma_fundamental_div_mod(p as int, m);
        assert(0 <= r < m);
        // Whether index p is painted depends on its place r in its period.
        assert(p == (2 * q) * n + r) by (nonlinear_arith)
            requires p == m * q + r, m == 2 * n;
        if r < n {
            lemma_fundamental_div_mod_converse(p as int, n, 2 * q, r);
            assert((2 * q) % 2 == 0) by (nonlinear_arith);
            assert(dash_on(p as int, n));
        } else {
            assert(p == (2 * q + 1) * n + (r - n)) by (nonlinear_arith)
                requires p == (2 * q) * n + r;
            lemma_fundamental_div_mod_converse(p as int, n, 2 * q + 1, r - n);
            assert((2 * q + 1) % 2 == 1) by (nonlinear_arith);
            assert(!dash_on(p as int, n));
        }
        if r + 1 < m {
            assert(len == q * m + (r + 1)) by (nonlinear_arith)
                requires p == m * q + r, len == p + 1;
            lemma_fundamental_div_mod_converse(len as int, m, q, r + 1);
        } else {
            assert(len == (q + 1) * m + 0) by (nonlinear_arith)
                requires p == m * q + r, len == p + 1, r + 1 == m;
            lemma_fundamental_div_mod_converse(len as int, m, q + 1, 0);
            assert((q + 1) * n == q * n + n) by (nonlinear_arith);
        }
    }
}

/// The painted count of the first `len` points is within one of
/// `ceil(len / 2n) * n` whenever `len % 2n` is 0 or at least `n - 1`.
pub proof fn lemma_dash_count_near(len: nat, n: int)
    requires
        0 < n,
        (len as int) % (2 * n) == 0 || (len as int) % (2 * n) >= n - 1,
    ensures
        ({
            let periods = (len as int) / (2 * n) + if (len as int) % (2 * n) == 0 {
                0int
            } else {
                1int
            };
            -1 <= dash_count(len, n) - periods * n <= 1
        }),
{
    lemma_dash_count(len, n);
    let q = (len as int) / (2 * n);
    assert((q + 1) * n == q * n + n) by (nonlinear_arith);
}

/// Steps taken along both axes to reach `p` from `(x1, y1)`.
pub open spec fn progress(x1: int, y1: int, p: (int, int)) -> int {
    span(x1, p.0) + span(y1, p.1)
}

/// Before the walk arrives, every step makes progress, so later points are
/// strictly further along.
pub proof fn lemma_progress_grows(x1: int, y1: int, x2: int, y2: int, m1: nat, m2: nat)
    requires
        m1 < m2,
        forall|m: int| 0 <= m < m2 ==> trace_point(x1, y1, x2, y2, m) != (x2, y2),
    ensures
        progress(x1, y1, trace_point(x1, y1, x2, y2, m1 as int)) < progress(
            x1,
            y1,
            trace_point(x1, y1, x2, y2, m2 as int),
        ),
    decreases m2 - m1,
{
    let k = (m2 - 1) as nat;
    lemma_walk(x1, y1, x2, y2, k);
    assert(trace_point(x1, y1, x2, y2, k as int) != (x2, y2));
    lemma_step_inv(x1, y1, x2, y2, trace_state(x1, y1, x2, y2, k), k);
    if m1 < k {
        lemma_progress_grows(x1, y1, x2, y2, m1, k);
    }
}

/// The number of points on the path: the walk arrives at the end point
/// after `len - 1` steps and not before.
pub open spec fn is_path_len(x1: int, y1: int, x2: int, y2: int, len: int) -> bool {
    &&& 1 <= len
    &&& trace_point(x1, y1, x2, y2, len - 1) == (x2, y2)
    &&& forall|m: int| 0 <= m < len - 1 ==> trace_point(x1, y1, x2, y2, m) != (x2, y2)
}

/// Searches steps `k, k + 1, ...` for the first arrival.
proof fn first_arrival_from(x1: int, y1: int, x2: int, y2: int, k: nat) -> (r: nat)
    requires
        k <= span(x1, x2) + span(y1, y2),
        forall|m: int| 0 <= m < k ==> trace_point(x1, y1, x2, y2, m) != (x2, y2),
    ensures
        is_path_len(x1, y1, x2, y2, r + 1int),
        r <= span(x1, x2) + span(y1, y2),
    decreases span(x1, x2) + span(y1, y2) - k,
{
    lemma_trace_arrives(x1, y1, x2, y2);
    if trace_point(x1, y1, x2, y2, k as int) == (x2, y2) {
        k
    } else {
        first_arrival_from(x1, y1, x2, y2, k + 1)
    }
}

/// Every segment has a path length, at most `|x2 - x1| + |y2 - y1| + 1`.
pub proof fn lemma_path_len_exists(x1: int, y1: int, x2: int, y2: int) -> (len: nat)
    ensures
        is_path_len(x1, y1, x2, y2, len as int),
        len <= span(x1, x2) + span(y1, y2) + 1,
{
    let r = first_arrival_from(x1, y1, x2, y2, 0);
    r + 1
}

/// The first `k` dash-painted points are `dash_count(k)` distinct points.
proof fn lemma_drawn_count(x1: int, y1: int, x2: int, y2: int, n: int, len: int, k: nat)
    requires
        is_path_len(x1, y1, x2, y2, len),
        k <= len,
    ensures
        drawn_upto(x1, y1, x2, y2, n, k as int).finite(),
        drawn_upto(x1, y1, x2, y2, n, k as int).len() == dash_count(k, n),
    decreases k,
{
    let cur = drawn_upto(x1, y1, x2, y2, n, k as int);
    if k == 0 {
        assert(cur =~= Set::<(int, int)>::empty());
    } else {
        let j = (k - 1) as nat;
        lemma_drawn_count(x1, y1, x2, y2, n, len, j);
        let prev = drawn_upto(x1, y1, x2, y2, n, j as int);
        let p = trace_point(x1, y1, x2, y2, j as int);
        if dash_on(j as int, n) {
            assert(!prev.contains(p)) by {
                if prev.contains(p) {
                    let m = choose|m: int|
                        0 <= m < j && dash_on(m, n) && #[trigger] trace_point(x1, y1, x2, y2, m) == p;
                    lemma_progress_grows(x1, y1, x2, y2, m as nat, j);
                }
            }
            assert(cur =~= prev.insert(p));
        } else {
            assert(cur =~= prev);
        }
    }
}

/// A line dashed in runs of `n` paints exactly `dash_count(len, n)` distinct
/// points, where `len` is the number of points on its path: the painted and
/// skipped runs of `n` alternate along the path, starting with a painted one.
pub proof fn lemma_dashed_point_count(x1: int, y1: int, x2: int, y2: int, n: int, len: int)
    requires
        is_path_len(x1, y1, x2, y2, len),
    ensures
        dashed_points(x1, y1, x2, y2, n).finite(),
        dashed_points(x1, y1, x2, y2, n).len() == dash_count(len as nat, n),
{
    let k = (len - 1) as nat;
    lemma_walk(x1, y1, x2, y2, k);
    if k > 0 {
        let s = trace_state(x1, y1, x2, y2, (k - 1) as nat);
        assert(trace_point(x1, y1, x2, y2, k - 1) != (x2, y2));
        lemma_walk(x1, y1, x2, y2, (k - 1) as nat);
        lemma_step_inv(x1, y1, x2, y2, s, (k - 1) as nat);
    }
    assert(k <= span(x1, x2) + span(y1, y2));
    lemma_on_path_prefix(x1, y1, x2, y2, k);
    lemma_drawn_count(x1, y1, x2, y2, n, len, len as nat);
    let dp = dashed_points(x1, y1, x2, y2, n);
    let du = drawn_upto(x1, y1, x2, y2, n, len);
    assert forall|p: (int, int)| dp.contains(p) <==> du.contains(p) by {
        if dp.contains(p) {
            let m = choose|m: int|
                on_path(x1, y1, x2, y2, m) && dash_on(m, n) && #[trigger] trace_point(x1, y1, x2, y2, m) == p;
            assert(du.contains(p));
        }
        if du.contains(p) {
            let m = choose|m: int| 0 <= m < len && dash_on(m, n) && #[trigger] trace_point(x1, y1, x2, y2, m) == p;
            assert(on_path(x1, y1, x2, y2, m));
        }
    }
    assert(dp =~= du);
}

/// Before arrival the walk steps along its major axis at every step: with
/// `|dx| >= |dy|` the `k`-th point is `k` steps along x, otherwise `k` steps
/// along y; the error term keeps the major step enabled.
pub proof fn lemma_major_steps(x1: int, y1: int, x2: int, y2: int, k: nat)
    requires
        forall|m: int| 0 <= m < k ==> trace_point(x1, y1, x2, y2, m) != (x2, y2),
    ensures
        ({
            let s = trace_state(x1, y1, x2, y2, k);
            let a = span(x1, x2);
            let b = span(y1, y2);
            &&& a >= b ==> span(x1, s.0) == k && 2 * s.2 >= -b
            &&& b > a ==> span(y1, s.1) == k && 2 * s.2 <= a
        }),
    decreases k,
{
    if k > 0 {
        let j = (k - 1) as nat;
        lemma_major_steps(x1, y1, x2, y2, j);
        lemma_walk(x1, y1, x2, y2, j);
        assert(trace_point(x1, y1, x2, y2, j as int) != (x2, y2));
    }
}

/// The path of a segment has `max(|x2 - x1|, |y2 - y1|) + 1` points.
pub proof fn lemma_path_len(x1: int, y1: int, x2: int, y2: int, len: int)
    requires
        is_path_len(x1, y1, x2, y2, len),
    ensures
        len == (if span(x1, x2) >= span(y1, y2) {
            span(x1, x2)
        } else {
            span(y1, y2)
        }) + 1,
{
    let k = (len - 1) as nat;
    lemma_major_steps(x1, y1, x2, y2, k);
}

/// A line dashed in runs of `n > 0` over a path of
/// `len = max(|x2 - x1|, |y2 - y1|) + 1` points paints
/// `(len / 2n) * n + min(len % 2n, n)` distinct points.
pub proof fn lemma_dashed_line_count(x1: int, y1: int, x2: int, y2: int, n: int)
    requires
        0 < n,
    ensures
        ({
            let len = (if span(x1, x2) >= span(y1, y2) {
                span(x1, x2)
            } else {
                span(y1, y2)
            }) + 1;
            &&& dashed_points(x1, y1, x2, y2, n).finite()
            &&& dashed_points(x1, y1, x2, y2, n).len() == (len / (2 * n)) * n + if len % (2 * n) < n {
                len % (2 * n)
            } else {
                n
            }
        }),
{
    let len = lemma_path_len_exists(x1, y1, x2, y2);
    lemma_path_len(x1, y1, x2, y2, len as int);
    lemma_dashed_point_count(x1, y1, x2, y2, n, len as int);
    lemma_dash_count(len, n);
}

} // verus!
