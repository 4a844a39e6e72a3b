//! Density-based clustering of 2D points (DBSCAN) over fixed-point
//! coordinates. A point with at least `min_points` neighbours within
//! distance `eps` (itself included, strictly closer than `eps`) is a core
//! point; points reachable from a core point join its cluster as edge
//! points; everything else is noise.

use vstd::prelude::*;

verus! {

/// Largest coordinate magnitude the clustering accepts; keeps squared
/// distances inside `i64`.
pub const COORD_LIMIT: i64 = 16777216;

/// Classification of one input point.
#[derive(Clone, Copy, Debug, PartialEq, Eq, Structural)]
pub enum Classification {
    /// A point with at least `min_points` neighbours within `eps`.
    Core(usize),
    /// A point within `eps` of a core point, with fewer neighbours itself.
    Edge(usize),
    /// A point within `eps` of no core point.
    Noise,
}

/// A coordinate pair small enough for exact squared-distance arithmetic.
pub open spec fn point_in_range(p: (i64, i64)) -> bool {
    &&& -COORD_LIMIT <= p.0 <= COORD_LIMIT
    &&& -COORD_LIMIT <= p.1 <= COORD_LIMIT
}

/// Two points lie strictly closer than `eps`: their squared Euclidean
/// distance is below `eps * eps`. Opaque: the arithmetic is needed only to
/// decide closeness and to flip its arguments; everywhere else proofs pass
/// closeness along unopened.
#[verifier::opaque]
pub open spec fn spec_close(p: (i64, i64), q: (i64, i64), eps: int) -> bool {
    (p.0 - q.0) * (p.0 - q.0) + (p.1 - q.1) * (p.1 - q.1) < eps * eps
}

/// Number of points among the first `n` that lie strictly closer than `eps`
/// to `sample`.
pub open spec fn count_close(points: Seq<(i64, i64)>, sample: (i64, i64), eps: int, n: int) -> nat
    decreases n,
{
    if n <= 0 {
        0
    } else {
        count_close(points, sample, eps, n - 1) + if spec_close(points[n - 1], sample, eps) {
            1nat
        } else {
            0nat
        }
    }
}

/// Point `i` is a core point: at least `min_points` of the points (itself
/// included) lie strictly closer than `eps` to it. Opaque: the count is
/// consulted only where core-ness is decided from a neighbour query.
#[verifier::opaque]
pub open spec fn spec_is_core(
    points: Seq<(i64, i64)>,
    eps: int,
    min_points: int,
    i: int,
) -> bool {
    count_close(points, points[i], eps, points.len() as int) >= min_points
}

/// Position `i` occurs somewhere in the queue.
pub open spec fn in_queue(q: Seq<usize>, i: int) -> bool {
    exists|k: int| 0 <= k < q.len() && q[k] == i
}

/// Number of entries of `v` that are still false (unvisited); together with
/// the queue length this bounds the remaining clustering work.
pub open spec fn count_unvisited(v: Seq<bool>) -> nat
    decreases v.len(),
{
    if v.len() == 0 {
        0
    } else {
        count_unvisited(v.drop_last()) + if v.last() {
            0nat
        } else {
            1nat
        }
    }
}

/// Closeness does not depend on the order of the two points.
pub proof fn lemma_close_symmetric(p: (i64, i64), q: (i64, i64), eps: int)
    ensures
        spec_close(p, q, eps) == spec_close(q, p, eps),
{
    reveal(spec_close);
    assert((p.0 - q.0) * (p.0 - q.0) == (q.0 - p.0) * (q.0 - p.0)) by (nonlinear_arith);
    assert((p.1 - q.1) * (p.1 - q.1) == (q.1 - p.1) * (q.1 - p.1)) by (nonlinear_arith);
}

/// Marking an unvisited entry visited lowers the unvisited count by one.
proof fn lemma_count_unvisited_update(v: Seq<bool>, j: int)
    requires
        0 <= j < v.len(),
        !v[j],
    ensures
        count_unvisited(v.update(j, true)) + 1 == count_unvisited(v),
    decreases v.len(),
{
    if j == v.len() - 1 {
        assert(v.update(j, true).drop_last() =~= v.drop_last());
    } else {
        assert(v.update(j, true).drop_last() =~= v.drop_last().update(j, true));
        lemma_count_unvisited_update(v.drop_last(), j);
    }
}

/// Decides whether two points lie strictly closer than `eps`.
fn point_close(p: (i64, i64), q: (i64, i64), eps: i64) -> (r: bool)
    requires
        point_in_range(p),
        point_in_range(q),
        0 <= eps <= COORD_LIMIT,
    ensures
        r == spec_close(p, q, eps as int),
{
    let dx = p.0 - q.0;
    let dy = p.1 - q.1;
    proof {
        reveal(spec_close);
        assert(dx * dx <= 0x4000000000000 && dx * dx >= 0 && dy * dy <= 0x4000000000000 && dy * dy
            >= 0 && eps * eps <= 0x4000000000000) by (nonlinear_arith)
            requires
                -0x2000000 <= dx <= 0x2000000,
                -0x2000000 <= dy <= 0x2000000,
                0 <= eps <= 0x1000000,
        ;
    }
    dx * dx + dy * dy < eps * eps
}

/// Indices of every point strictly closer than `eps` to `sample`, in
/// increasing order; the length equals the neighbour count that decides
/// core-ness.
fn range_query(points: &Vec<(i64, i64)>, sample: (i64, i64), eps: i64) -> (res: Vec<usize>)
    requires
        forall|i: int| 0 <= i < points.len() ==> point_in_range(#[trigger] points@[i]),
        point_in_range(sample),
        0 <= eps <= COORD_LIMIT,
    ensures
        forall|k: int|
            0 <= k < res.len() ==> #[trigger] res@[k] < points.len() && spec_close(
                points@[res@[k] as int],
                sample,
                eps as int,
            ),
        forall|j: int|
            0 <= j < points.len() && spec_close(#[trigger] points@[j], sample, eps as int)
                ==> res@.contains(j as usize),
        res@.len() == count_close(points@, sample, eps as int, points.len() as int),
        forall|k1: int, k2: int| 0 <= k1 < k2 < res.len() ==> #[trigger] res@[k1] < #[trigger] res@[k2],
{
    let mut res: Vec<usize> = Vec::new();
    let mut j: usize = 0;
    while j < points.len()
        invariant
            j <= points.len(),
            forall|i: int| 0 <= i < points.len() ==> point_in_range(#[trigger] points@[i]),
            point_in_range(sample),
            0 <= eps <= COORD_LIMIT,
            forall|k: int|
                0 <= k < res.len() ==> #[trigger] res@[k] < j && spec_close(
                    points@[res@[k] as int],
                    sample,
                    eps as int,
                ),
            forall|i: int|
                0 <= i < j && spec_close(#[trigger] points@[i], sample, eps as int)
                    ==> res@.contains(i as usize),
            res@.len() == count_close(points@, sample, eps as int, j as int),
            forall|k1: int, k2: int|
                0 <= k1 < k2 < res.len() ==> #[trigger] res@[k1] < #[trigger] res@[k2],
        decreases points.len() - j,
    {
        let ghost old_res = res@;
        if point_close(points[j], sample, eps) {
            res.push(j);
            proof {
                assert(res@[res@.len() - 1] == j);
                assert forall|i: int|
                    0 <= i < j + 1 && spec_close(#[trigger] points@[i], sample, eps as int)
                    implies res@.contains(i as usize) by {
                    if i < j {
                        let k = choose|k: int| 0 <= k < old_res.len() && old_res[k] == i as usize;
                        assert(res@[k] == i as usize);
                    }
                }
            }
        }
        j += 1;
    }
    res
}

/// A chain of core points: every entry indexes a core point, consecutive
/// entries lie strictly within `eps`, and the chain leads from `i` to `j`.
pub open spec fn spec_core_path(
    points: Seq<(i64, i64)>,
    eps: int,
    min_points: int,
    path: Seq<int>,
    i: int,
    j: int,
) -> bool {
    &&& path.len() >= 1
    &&& path[0] == i
    &&& path[path.len() - 1] == j
    &&& (forall|k: int|
        0 <= k < path.len() ==> 0 <= #[trigger] path[k] < points.len() && spec_is_core(
            points,
            eps,
            min_points,
            path[k],
        ))
    &&& (forall|k: int|
        0 <= k < path.len() - 1 ==> spec_close(
            points[#[trigger] path[k]],
            points[path[k + 1]],
            eps,
        ))
}

/// Core points `i` and `j` are density-connected: a chain of core points
/// leads from one to the other, each strictly within `eps` of the next.
/// Opaque: proofs handle connectedness through the lemmas below and never
/// unfold the chain existential.
#[verifier::opaque]
pub open spec fn spec_density_connected(
    points: Seq<(i64, i64)>,
    eps: int,
    min_points: int,
    i: int,
    j: int,
) -> bool {
    exists|path: Seq<int>| spec_core_path(points, eps, min_points, path, i, j)
}

/// Core-labelled points strictly within `eps` of each other carry the same
/// cluster id.
pub open spec fn spec_close_cores_same_id(
    points: Seq<(i64, i64)>,
    eps: int,
    c: Seq<Classification>,
) -> bool {
    forall|a: int, b: int| #![trigger c[a], c[b]]
        0 <= a < points.len() && 0 <= b < points.len() && c[a] is Core && c[b] is Core
            && spec_close(points[a], points[b], eps) ==> c[a]->Core_0 == c[b]->Core_0
}

/// Core-labelled points with the same cluster id are density-connected.
pub open spec fn spec_same_id_connected(
    points: Seq<(i64, i64)>,
    eps: int,
    min_points: int,
    c: Seq<Classification>,
) -> bool {
    forall|a: int, b: int| #![trigger c[a], c[b]]
        0 <= a < points.len() && 0 <= b < points.len() && c[a] is Core && c[b] is Core
            && c[a]->Core_0 == c[b]->Core_0 ==> spec_density_connected(
            points,
            eps,
            min_points,
            a,
            b,
        )
}

/// A core point is density-connected to itself.
proof fn lemma_connected_refl(points: Seq<(i64, i64)>, eps: int, min_points: int, i: int)
    requires
        0 <= i < points.len(),
        spec_is_core(points, eps, min_points, i),
    ensures
        spec_density_connected(points, eps, min_points, i, i),
{
    reveal(spec_density_connected);
    let path = seq![i];
    assert(spec_core_path(points, eps, min_points, path, i, i));
}

/// Two core points strictly within `eps` of each other are
/// density-connected.
proof fn lemma_connected_step(points: Seq<(i64, i64)>, eps: int, min_points: int, i: int, j: int)
    requires
        0 <= i < points.len(),
        0 <= j < points.len(),
        spec_is_core(points, eps, min_points, i),
        spec_is_core(points, eps, min_points, j),
        spec_close(points[i], points[j], eps),
    ensures
        spec_density_connected(points, eps, min_points, i, j),
{
    reveal(spec_density_connected);
    let path = seq![i, j];
    assert(spec_core_path(points, eps, min_points, path, i, j));
}

/// Density-connectedness is symmetric: a chain read backwards is a chain.
proof fn lemma_connected_symmetric(
    points: Seq<(i64, i64)>,
    eps: int,
    min_points: int,
    i: int,
    j: int,
)
    requires
        spec_density_connected(points, eps, min_points, i, j),
    ensures
        spec_density_connected(points, eps, min_points, j, i),
{
    reveal(spec_density_connected);
    let path = choose|path: Seq<int>| spec_core_path(points, eps, min_points, path, i, j);
    let n = path.len() as int;
    let rev = Seq::new(path.len(), |k: int| path[n - 1 - k]);
    assert forall|k: int| 0 <= k < rev.len() - 1 implies spec_close(
        points[#[trigger] rev[k]],
        points[rev[k + 1]],
        eps,
    ) by {
        let m = n - 2 - k;
        assert(spec_close(points[path[m]], points[path[m + 1]], eps));
        lemma_close_symmetric(points[path[m]], points[path[m + 1]], eps);
        assert(rev[k] == path[m + 1] && rev[k + 1] == path[m]);
    }
    assert(spec_core_path(points, eps, min_points, rev, j, i));
}

/// Density-connectedness is transitive: two chains sharing an endpoint join
/// into one.
proof fn lemma_connected_transitive(
    points: Seq<(i64, i64)>,
    eps: int,
    min_points: int,
    i: int,
    j: int,
    k: int,
)
    requires
        spec_density_connected(points, eps, min_points, i, j),
        spec_density_connected(points, eps, min_points, j, k),
    ensures
        spec_density_connected(points, eps, min_points, i, k),
{
    reveal(spec_density_connected);
    let p1 = choose|path: Seq<int>| spec_core_path(points, eps, min_points, path, i, j);
    let p2 = choose|path: Seq<int>| spec_core_path(points, eps, min_points, path, j, k);
    if p2.len() == 1 {
        assert(j == k);
        assert(spec_core_path(points, eps, min_points, p1, i, k));
    } else {
        let joined = p1 + p2.subrange(1, p2.len() as int);
        let n1 = p1.len() as int;
        assert(joined[joined.len() - 1] == p2[p2.len() - 1]);
        assert forall|m: int| 0 <= m < joined.len() - 1 implies spec_close(
            points[#[trigger] joined[m]],
            points[joined[m + 1]],
            eps,
        ) by {
            if m < n1 - 1 {
                assert(joined[m] == p1[m] && joined[m + 1] == p1[m + 1]);
            } else if m == n1 - 1 {
                assert(joined[m] == p1[n1 - 1] && p1[n1 - 1] == j && j == p2[0]);
                assert(joined[m + 1] == p2[1]);
                assert(spec_close(points[p2[0]], points[p2[1]], eps));
            } else {
                assert(joined[m] == p2[m - n1 + 1] && joined[m + 1] == p2[m - n1 + 2]);
                assert(spec_close(points[p2[m - n1 + 1]], points[p2[m - n1 + 2]], eps));
            }
        }
        assert forall|m: int| 0 <= m < joined.len() implies 0 <= #[trigger] joined[m]
            < points.len() && spec_is_core(points, eps, min_points, joined[m]) by {
            if m < n1 {
                assert(joined[m] == p1[m]);
            } else {
                assert(joined[m] == p2[m - n1 + 1]);
            }
        }
        assert(spec_core_path(points, eps, min_points, joined, i, k));
    }
}

/// Labels that give close core pairs equal ids stay constant along a chain.
proof fn lemma_path_shares_id(
    points: Seq<(i64, i64)>,
    eps: int,
    min_points: int,
    cls: Seq<Classification>,
    path: Seq<int>,
    i: int,
    j: int,
)
    requires
        cls.len() == points.len(),
        forall|a: int|
            0 <= a < points.len() && spec_is_core(points, eps, min_points, a) ==> (
            #[trigger] cls[a]) is Core,
        spec_close_cores_same_id(points, eps, cls),
        spec_core_path(points, eps, min_points, path, i, j),
    ensures
        cls[i]->Core_0 == cls[j]->Core_0,
    decreases path.len(),
{
    if path.len() > 1 {
        let tail = path.subrange(1, path.len() as int);
        assert(spec_close(points[path[0]], points[path[1]], eps));
        assert forall|m: int| 0 <= m < tail.len() implies 0 <= #[trigger] tail[m] < points.len()
            && spec_is_core(points, eps, min_points, tail[m]) by {
            assert(tail[m] == path[m + 1]);
        }
        assert forall|m: int| 0 <= m < tail.len() - 1 implies spec_close(
            points[#[trigger] tail[m]],
            points[tail[m + 1]],
            eps,
        ) by {
            assert(tail[m] == path[m + 1] && tail[m + 1] == path[m + 2]);
            assert(spec_close(points[path[m + 1]], points[path[m + 2]], eps));
        }
        assert(spec_core_path(points, eps, min_points, tail, path[1], j));
        lemma_path_shares_id(points, eps, min_points, cls, tail, path[1], j);
    }
}

/// The converse reading of the partition clauses: under a classification
/// that labels every core point and gives close core pairs equal ids,
/// density-connected core points share their cluster id. Together with
/// `spec_same_id_connected`, equal core ids are therefore exactly
/// density-connectedness.
pub proof fn lemma_connected_cores_share_id(
    points: Seq<(i64, i64)>,
    eps: int,
    min_points: int,
    cls: Seq<Classification>,
    i: int,
    j: int,
)
    requires
        cls.len() == points.len(),
        forall|a: int|
            0 <= a < points.len() && spec_is_core(points, eps, min_points, a) ==> (
            #[trigger] cls[a]) is Core,
        spec_close_cores_same_id(points, eps, cls),
        spec_density_connected(points, eps, min_points, i, j),
    ensures
        cls[i]->Core_0 == cls[j]->Core_0,
{
    reveal(spec_density_connected);
    let path = choose|path: Seq<int>| spec_core_path(points, eps, min_points, path, i, j);
    lemma_path_shares_id(points, eps, min_points, cls, path, i, j);
}

/// No core-labelled point lies strictly within `eps` of an unvisited point:
/// labelling a core point visits its whole neighbourhood.
spec fn cores_clear_of_unvisited(
    points: Seq<(i64, i64)>,
    eps: int,
    c: Seq<Classification>,
    v: Seq<bool>,
) -> bool {
    forall|a: int, q: int| #![trigger c[a], v[q]]
        0 <= a < points.len() && 0 <= q < points.len() && c[a] is Core && !v[q] ==> !spec_close(
            points[a],
            points[q],
            eps,
        )
}

/// Every core-labelled point strictly within `eps` of a queued point belongs
/// to the cluster now being grown.
spec fn queue_cores_current(
    points: Seq<(i64, i64)>,
    eps: int,
    c: Seq<Classification>,
    q: Seq<usize>,
    cluster: int,
) -> bool {
    forall|a: int, k: int| #![trigger c[a], q[k]]
        0 <= a < points.len() && 0 <= k < q.len() && c[a] is Core && spec_close(
            points[a],
            points[q[k] as int],
            eps,
        ) ==> c[a]->Core_0 == cluster
}

/// The queue's parallel witness sequence: entry `k` names a point already
/// labelled as a core point of the cluster now being grown, strictly within
/// `eps` of queued point `k`.
spec fn queue_witnesses_ok(
    points: Seq<(i64, i64)>,
    eps: int,
    c: Seq<Classification>,
    q: Seq<usize>,
    near: Seq<usize>,
    cluster: int,
) -> bool {
    &&& near.len() == q.len()
    &&& forall|k: int| #![trigger near[k]]
        0 <= k < q.len() ==> near[k] < points.len() && c[near[k] as int] is Core
            && c[near[k] as int]->Core_0 == cluster && spec_close(
            points[near[k] as int],
            points[q[k] as int],
            eps,
        )
}

/// Labelling one new core point of the current cluster preserves the two
/// partition clauses: the new point is close only to core points of this
/// cluster, and (when the cluster already has a core point) is chained to
/// all of them through any close one.
proof fn lemma_label_preserves_partition(
    points: Seq<(i64, i64)>,
    eps: int,
    min_points: int,
    cluster: usize,
    new_cluster: bool,
    ind: int,
    witness: int,
    c_before: Seq<Classification>,
    c_after: Seq<Classification>,
)
    requires
        0 <= ind < points.len(),
        c_before.len() == points.len(),
        c_after == c_before.update(ind, Classification::Core(cluster)),
        !(c_before[ind] is Core),
        spec_is_core(points, eps, min_points, ind),
        spec_close_cores_same_id(points, eps, c_before),
        spec_same_id_connected(points, eps, min_points, c_before),
        forall|i: int|
            0 <= i < points.len() && (#[trigger] c_before[i]) is Core ==> spec_is_core(
                points,
                eps,
                min_points,
                i,
            ),
        forall|a: int|
            0 <= a < points.len() && (#[trigger] c_before[a]) is Core && spec_close(
                points[a],
                points[ind],
                eps,
            ) ==> c_before[a]->Core_0 == cluster,
        new_cluster ==> 0 <= witness < points.len() && c_before[witness] is Core
            && c_before[witness]->Core_0 == cluster && spec_close(
            points[witness],
            points[ind],
            eps,
        ),
        !new_cluster ==> forall|i: int|
            0 <= i < points.len() && (#[trigger] c_before[i]) is Core ==> c_before[i]->Core_0
                < cluster,
    ensures
        spec_close_cores_same_id(points, eps, c_after),
        spec_same_id_connected(points, eps, min_points, c_after),
{
    let n = points.len() as int;
    assert forall|a: int, b: int| #![trigger c_after[a], c_after[b]]
        0 <= a < n && 0 <= b < n && c_after[a] is Core && c_after[b] is Core && spec_close(
            points[a],
            points[b],
            eps,
        ) implies c_after[a]->Core_0 == c_after[b]->Core_0 by {
        if a == ind && b != ind {
            lemma_close_symmetric(points[a], points[b], eps);
            assert(c_before[b] is Core && spec_close(points[b], points[ind], eps));
        }
        if b == ind && a != ind {
            assert(c_before[a] is Core && spec_close(points[a], points[ind], eps));
        }
    }
    assert forall|a: int, b: int| #![trigger c_after[a], c_after[b]]
        0 <= a < n && 0 <= b < n && c_after[a] is Core && c_after[b] is Core && c_after[a]->Core_0
            == c_after[b]->Core_0 implies spec_density_connected(points, eps, min_points, a, b) by {
        if a == ind && b == ind {
            lemma_connected_refl(points, eps, min_points, a);
        } else if a == ind || b == ind {
            let other = if a == ind {
                b
            } else {
                a
            };
            assert(c_before[other] is Core && c_before[other]->Core_0 == cluster);
            assert(new_cluster);
            let w = witness;
            assert(spec_is_core(points, eps, min_points, w));
            assert(spec_is_core(points, eps, min_points, other));
            lemma_connected_step(points, eps, min_points, w, ind);
            assert(spec_density_connected(points, eps, min_points, w, other));
            lemma_connected_symmetric(points, eps, min_points, w, ind);
            lemma_connected_transitive(points, eps, min_points, ind, w, other);
            if b == ind {
                lemma_connected_symmetric(points, eps, min_points, ind, other);
            }
        }
    }
}

/// Relabelling that leaves every core label untouched preserves the
/// connectedness clause: the chains do not mention the labels.
proof fn lemma_same_id_transfer(
    points: Seq<(i64, i64)>,
    eps: int,
    min_points: int,
    c1: Seq<Classification>,
    c2: Seq<Classification>,
)
    requires
        spec_same_id_connected(points, eps, min_points, c1),
        c1.len() == points.len(),
        c2.len() == points.len(),
        forall|i: int| 0 <= i < c2.len() && (#[trigger] c2[i]) is Core ==> c2[i] == c1[i],
    ensures
        spec_same_id_connected(points, eps, min_points, c2),
{
    assert forall|a: int, b: int| #![trigger c2[a], c2[b]]
        0 <= a < points.len() && 0 <= b < points.len() && c2[a] is Core && c2[b] is Core
            && c2[a]->Core_0 == c2[b]->Core_0 implies spec_density_connected(
        points,
        eps,
        min_points,
        a,
        b,
    ) by {
        assert(c1[a] == c2[a] && c1[b] == c2[b]);
    }
}

/// Bookkeeping invariant of the clustering worklist: the queue holds
/// in-range, visited, pairwise-distinct points that are not yet done; a
/// point is visited exactly when it is queued or done; core labels are given
/// only to popped core points, every popped core point is labelled core, and
/// every edge label points at a close core point of the same cluster.
pub open spec fn dbscan_core_inv(
    points: Seq<(i64, i64)>,
    eps: int,
    min_points: int,
    c: Seq<Classification>,
    v: Seq<bool>,
    q: Seq<usize>,
    done: Set<int>,
    cluster: int,
) -> bool {
    dbscan_core_inv_except(points, eps, min_points, c, v, q, done, cluster, -1)
}

/// `dbscan_core_inv`, except that the point `except` — the one being
/// processed right now — is not yet required to carry its core label.
pub open spec fn dbscan_core_inv_except(
    points: Seq<(i64, i64)>,
    eps: int,
    min_points: int,
    c: Seq<Classification>,
    v: Seq<bool>,
    q: Seq<usize>,
    done: Set<int>,
    cluster: int,
    except: int,
) -> bool {
    let n = points.len() as int;
    &&& c.len() == n
    &&& v.len() == n
    &&& (forall|k: int| 0 <= k < q.len() ==> #[trigger] q[k] < n && v[q[k] as int])
    &&& (forall|k1: int, k2: int| #![trigger q[k1], q[k2]]
        0 <= k1 < k2 < q.len() ==> q[k1] != q[k2])
    &&& (forall|k: int| 0 <= k < q.len() ==> !done.contains(#[trigger] q[k] as int))
    &&& (forall|i: int| 0 <= i < n ==> (#[trigger] v[i] <==> (done.contains(i) || in_queue(q, i))))
    &&& (forall|i: int| #[trigger] done.contains(i) ==> 0 <= i < n)
    &&& (forall|i: int|
        0 <= i < n && (#[trigger] c[i]) is Core ==> spec_is_core(points, eps, min_points, i)
            && done.contains(i) && c[i]->Core_0 <= cluster)
    &&& (forall|i: int|
        0 <= i < n && done.contains(i) && i != except && spec_is_core(points, eps, min_points, i)
            ==> (#[trigger] c[i]) is Core)
    &&& (forall|i: int|
        0 <= i < n && (#[trigger] c[i]) is Edge ==> exists|j: int|
            0 <= j < n && spec_is_core(points, eps, min_points, j) && spec_close(
                points[j],
                points[i],
                eps,
            ) && c[j] == Classification::Core(c[i]->Edge_0))
}

/// No point still labelled noise lies within `eps` of a done core point.
pub open spec fn dbscan_noise_inv(
    points: Seq<(i64, i64)>,
    eps: int,
    min_points: int,
    c: Seq<Classification>,
    done: Set<int>,
) -> bool {
    forall|i: int, j: int| #![trigger c[i], done.contains(j)]
        0 <= i < points.len() && 0 <= j < points.len() && c[i] is Noise && done.contains(j)
            && spec_is_core(points, eps, min_points, j) ==> !spec_close(points[j], points[i], eps)
}

/// Processes one point just taken off the worklist: if it has enough close
/// neighbours it becomes a core point of the current cluster, turns its
/// still-noise neighbours into edge points, and enqueues its unvisited
/// neighbours; otherwise nothing changes. Returns whether the point was a
/// core point.
#[verifier::spinoff_prover]
#[verifier::rlimit(100)]
#[verifier::loop_isolation(false)]
fn expand_one(
    points: &Vec<(i64, i64)>,
    eps: i64,
    min_points: usize,
    cluster: usize,
    new_cluster: bool,
    ind: usize,
    c: &mut Vec<Classification>,
    v: &mut Vec<bool>,
    queue: &mut Vec<usize>,
    Ghost(done): Ghost<Set<int>>,
    Ghost(near): Ghost<Seq<usize>>,
    Ghost(ind_witness): Ghost<usize>,
) -> (r: (bool, Ghost<Seq<usize>>))
    requires
        forall|i: int| 0 <= i < points.len() ==> point_in_range(#[trigger] points@[i]),
        0 <= eps <= COORD_LIMIT,
        ind < points.len(),
        done.contains(ind as int),
        !((old(c)@[ind as int]) is Core),
        dbscan_core_inv_except(
            points@,
            eps as int,
            min_points as int,
            old(c)@,
            old(v)@,
            old(queue)@,
            done,
            cluster as int,
            ind as int,
        ),
        dbscan_noise_inv(
            points@,
            eps as int,
            min_points as int,
            old(c)@,
            done.remove(ind as int),
        ),
        forall|i: int|
            0 <= i < points.len() && (#[trigger] old(c)@[i]) is Core ==> old(
                c,
            )@[i]->Core_0 <= cluster,
        spec_close_cores_same_id(points@, eps as int, old(c)@),
        spec_same_id_connected(points@, eps as int, min_points as int, old(c)@),
        cores_clear_of_unvisited(points@, eps as int, old(c)@, old(v)@),
        queue_cores_current(points@, eps as int, old(c)@, old(queue)@, cluster as int),
        forall|a: int|
            0 <= a < points.len() && (#[trigger] old(c)@[a]) is Core && spec_close(
                points@[a],
                points@[ind as int],
                eps as int,
            ) ==> old(c)@[a]->Core_0 == cluster,
        new_cluster ==> queue_witnesses_ok(
            points@,
            eps as int,
            old(c)@,
            old(queue)@,
            near,
            cluster as int,
        ),
        new_cluster ==> ind_witness < points.len() && old(c)@[ind_witness as int] is Core && old(
            c,
        )@[ind_witness as int]->Core_0 == cluster && spec_close(
            points@[ind_witness as int],
            points@[ind as int],
            eps as int,
        ),
        !new_cluster ==> old(queue)@.len() == 0,
        !new_cluster ==> forall|i: int|
            0 <= i < points.len() && (#[trigger] old(c)@[i]) is Core ==> old(
                c,
            )@[i]->Core_0 < cluster,
    ensures
        r.0 == spec_is_core(points@, eps as int, min_points as int, ind as int),
        dbscan_core_inv(
            points@,
            eps as int,
            min_points as int,
            final(c)@,
            final(v)@,
            final(queue)@,
            done,
            cluster as int,
        ),
        dbscan_noise_inv(points@, eps as int, min_points as int, final(c)@, done),
        forall|i: int| 0 <= i < final(v)@.len() && #[trigger] old(v)@[i] ==> final(v)@[i],
        2 * count_unvisited(final(v)@) + final(queue)@.len() <= 2 * count_unvisited(old(v)@) + old(queue)@.len(),
        !r.0 ==> final(c)@ == old(c)@ && final(v)@ == old(v)@ && final(queue)@ == old(queue)@
            && r.1@ == near,
        forall|i: int|
            0 <= i < points.len() && (#[trigger] final(c)@[i]) is Core ==> final(c)@[i]->Core_0
                <= cluster,
        spec_close_cores_same_id(points@, eps as int, final(c)@),
        spec_same_id_connected(points@, eps as int, min_points as int, final(c)@),
        cores_clear_of_unvisited(points@, eps as int, final(c)@, final(v)@),
        queue_cores_current(points@, eps as int, final(c)@, final(queue)@, cluster as int),
        (new_cluster || r.0) ==> queue_witnesses_ok(
            points@,
            eps as int,
            final(c)@,
            final(queue)@,
            r.1@,
            cluster as int,
        ),
{
    let ghost n = points@.len() as int;
    let ghost speps = eps as int;
    let ghost smpt = min_points as int;
    let neighbors = range_query(points, points[ind], eps);
    if neighbors.len() < min_points {
        proof {
            assert(!spec_is_core(points@, speps, smpt, ind as int)) by {
                reveal(spec_is_core);
            }
            assert forall|i: int, j: int| #![trigger c@[i], done.contains(j)]
                0 <= i < n && 0 <= j < n && c@[i] is Noise && done.contains(j) && spec_is_core(
                    points@,
                    speps,
                    smpt,
                    j,
                ) implies !spec_close(points@[j], points@[i], speps) by {
                if j != ind as int {
                    assert(done.remove(ind as int).contains(j));
                }
            }
        }
        return (false, Ghost(near));
    }
    proof {
        assert(spec_is_core(points@, speps, smpt, ind as int)) by {
            reveal(spec_is_core);
        }
    }
    let ghost c_before = c@;
    c.set(ind, Classification::Core(cluster));
    proof {
        assert forall|i: int| 0 <= i < n && (#[trigger] c@[i]) is Edge implies exists|j: int|
            0 <= j < n && spec_is_core(points@, speps, smpt, j) && spec_close(
                points@[j],
                points@[i],
                speps,
            ) && c@[j] == Classification::Core(c@[i]->Edge_0) by {
            let j = choose|j: int|
                0 <= j < n && spec_is_core(points@, speps, smpt, j) && spec_close(
                    points@[j],
                    points@[i],
                    speps,
                ) && c_before[j] == Classification::Core(c_before[i]->Edge_0);
            assert(j != ind as int);
            assert(c@[j] == c_before[j]);
        }
        assert forall|i: int|
            0 <= i < n && (#[trigger] c@[i]) is Noise && spec_close(
                points@[ind as int],
                points@[i],
                speps,
            ) implies exists|k: int| 0 <= k < neighbors@.len() && neighbors@[k] == i by {
            lemma_close_symmetric(points@[ind as int], points@[i], speps);
            assert(neighbors@.contains(i as usize));
            let k = choose|k: int| 0 <= k < neighbors@.len() && neighbors@[k] == i as usize;
            assert(neighbors@[k] == i);
        }
        assert forall|q: int|
            #![trigger v@[q]]
            0 <= q < n && !v@[q] && spec_close(points@[q], points@[ind as int], speps)
            implies exists|k: int| 0 <= k < neighbors@.len() && neighbors@[k] == q by {
            assert(neighbors@.contains(q as usize));
            let k = choose|k: int| 0 <= k < neighbors@.len() && neighbors@[k] == q as usize;
            assert(neighbors@[k] == q);
        }
        assert(c@ == c_before.update(ind as int, Classification::Core(cluster)));
        lemma_label_preserves_partition(
            points@,
            speps,
            smpt,
            cluster,
            new_cluster,
            ind as int,
            ind_witness as int,
            c_before,
            c@,
        );
        assert forall|a: int, k: int| #![trigger c@[a], queue@[k]]
            0 <= a < n && 0 <= k < queue@.len() && c@[a] is Core && spec_close(
                points@[a],
                points@[queue@[k] as int],
                speps,
            ) implies c@[a]->Core_0 == cluster by {
            if a != ind as int {
                assert(c_before[a] is Core);
            }
        }
        assert forall|a: int, q: int| #![trigger c@[a], v@[q]]
            0 <= a < n && 0 <= q < n && a != ind as int && c@[a] is Core && !v@[q]
            implies !spec_close(points@[a], points@[q], speps) by {
            assert(c_before[a] is Core);
        }
    }
    let ghost mut near_current: Seq<usize> = Seq::empty();
    proof {
        if new_cluster {
            near_current = near;
            assert forall|k: int| #![trigger near_current[k]]
                0 <= k < queue@.len() implies near_current[k] < n && c@[near_current[k] as int]
                is Core && c@[near_current[k] as int]->Core_0 == cluster && spec_close(
                points@[near_current[k] as int],
                points@[queue@[k] as int],
                speps,
            ) by {
                assert(c_before[near[k] as int] is Core);
            }
        }
    }
    let ghost entry_measure = 2 * count_unvisited(v@) + queue@.len();
    let mut t: usize = 0;
    while t < neighbors.len()
        invariant
            t <= neighbors.len(),
            ind < n,
            n == points.len(),
            done.contains(ind as int),
            forall|i: int| 0 <= i < points.len() ==> point_in_range(#[trigger] points@[i]),
            0 <= eps <= COORD_LIMIT,
            spec_is_core(points@, speps, smpt, ind as int),
            c@[ind as int] == Classification::Core(cluster),
            forall|k: int|
                0 <= k < neighbors.len() ==> #[trigger] neighbors@[k] < n && spec_close(
                    points@[neighbors@[k] as int],
                    points@[ind as int],
                    speps,
                ),
            dbscan_core_inv(points@, speps, smpt, c@, v@, queue@, done, cluster as int),
            dbscan_noise_inv(points@, speps, smpt, c@, done.remove(ind as int)),
            forall|i: int|
                0 <= i < n && (#[trigger] c@[i]) is Noise && spec_close(
                    points@[ind as int],
                    points@[i],
                    speps,
                ) ==> exists|k: int| t <= k < neighbors.len() && neighbors@[k] == i,
            forall|i: int|
                0 <= i < n && (#[trigger] c@[i]) is Core ==> (c@[i]->Core_0 < cluster || c@[i]->Core_0
                    == cluster),
            forall|i: int| 0 <= i < v@.len() && #[trigger] old(v)@[i] ==> v@[i],
            2 * count_unvisited(v@) + queue@.len() <= entry_measure,
            spec_close_cores_same_id(points@, speps, c@),
            spec_same_id_connected(points@, speps, smpt, c@),
            queue_cores_current(points@, speps, c@, queue@, cluster as int),
            queue_witnesses_ok(points@, speps, c@, queue@, near_current, cluster as int),
            forall|a: int, q: int| #![trigger c@[a], v@[q]]
                0 <= a < n && 0 <= q < n && a != ind as int && c@[a] is Core && !v@[q]
                    ==> !spec_close(points@[a], points@[q], speps),
            forall|q: int| #![trigger v@[q]]
                0 <= q < n && !v@[q] && spec_close(points@[q], points@[ind as int], speps)
                    ==> exists|k: int| t <= k < neighbors.len() && neighbors@[k] == q,
        decreases neighbors.len() - t,
    {
        let nb = neighbors[t];
        let is_noise = matches!(c[nb], Classification::Noise);
        let ghost c_before_edge = c@;
        if is_noise {
            c.set(nb, Classification::Edge(cluster));
            proof {
                lemma_close_symmetric(points@[nb as int], points@[ind as int], speps);
                lemma_same_id_transfer(points@, speps, smpt, c_before_edge, c@);
                assert forall|k: int| #![trigger near_current[k]]
                    0 <= k < queue@.len() implies near_current[k] < n && c@[near_current[k] as int]
                    is Core && c@[near_current[k] as int]->Core_0 == cluster && spec_close(
                    points@[near_current[k] as int],
                    points@[queue@[k] as int],
                    speps,
                ) by {
                    assert(c_before_edge[near_current[k] as int] is Core);
                }
                assert forall|i: int| 0 <= i < n && (#[trigger] c@[i]) is Edge implies exists|
                    j: int,
                |
                    0 <= j < n && spec_is_core(points@, speps, smpt, j) && spec_close(
                        points@[j],
                        points@[i],
                        speps,
                    ) && c@[j] == Classification::Core(c@[i]->Edge_0) by {
                    if i == nb as int {
                        assert(spec_is_core(points@, speps, smpt, ind as int) && spec_close(
                            points@[ind as int],
                            points@[i],
                            speps,
                        ) && c@[ind as int] == Classification::Core(c@[i]->Edge_0));
                    } else {
                        let j = choose|j: int|
                            0 <= j < n && spec_is_core(points@, speps, smpt, j) && spec_close(
                                points@[j],
                                points@[i],
                                speps,
                            ) && c_before_edge[j] == Classification::Core(c_before_edge[i]->Edge_0);
                        assert(c@[j] == c_before_edge[j]);
                    }
                }
            }
        }
        proof {
            assert forall|i: int|
                0 <= i < n && (#[trigger] c@[i]) is Noise && spec_close(
                    points@[ind as int],
                    points@[i],
                    speps,
                ) implies exists|k: int| t + 1 <= k < neighbors.len() && neighbors@[k] == i by {
                let k = choose|k: int| t <= k < neighbors.len() && neighbors@[k] == i;
                assert(k != t);
            }
        }
        if !v[nb] {
            proof {
                lemma_close_symmetric(points@[ind as int], points@[nb as int], speps);
            }
            let ghost v_before = v@;
            let ghost q_before = queue@;
            v.set(nb, true);
            queue.push(nb);
            proof {
                lemma_count_unvisited_update(v_before, nb as int);
                assert(queue@[queue@.len() - 1] == nb);
                assert(in_queue(queue@, nb as int));
                assert forall|i: int| 0 <= i < n implies (#[trigger] v@[i] <==> (done.contains(i)
                    || in_queue(queue@, i))) by {
                    if i != nb && in_queue(queue@, i) {
                        let k = choose|k: int| 0 <= k < queue@.len() && queue@[k] == i;
                        assert(q_before[k] == i);
                    }
                    if i != nb && v@[i] && !done.contains(i) {
                        let k = choose|k: int| 0 <= k < q_before.len() && q_before[k] == i;
                        assert(queue@[k] == i);
                    }
                }
                assert forall|a: int, k: int| #![trigger c@[a], queue@[k]]
                    0 <= a < n && 0 <= k < queue@.len() && c@[a] is Core && spec_close(
                        points@[a],
                        points@[queue@[k] as int],
                        speps,
                    ) implies c@[a]->Core_0 == cluster by {
                    if k == queue@.len() - 1 && a != ind as int {
                        assert(!v_before[nb as int]);
                        assert(!spec_close(points@[a], points@[nb as int], speps));
                    }
                }
                let ghost near_prev = near_current;
                near_current = near_current.push(ind);
                assert forall|k: int| #![trigger near_current[k]]
                    0 <= k < queue@.len() implies near_current[k] < n && c@[near_current[k] as int]
                    is Core && c@[near_current[k] as int]->Core_0 == cluster && spec_close(
                    points@[near_current[k] as int],
                    points@[queue@[k] as int],
                    speps,
                ) by {
                    if k < queue@.len() - 1 {
                        assert(near_current[k] == near_prev[k]);
                        assert(queue@[k] == q_before[k]);
                    } else {
                        assert(near_current[k] == ind);
                        assert(spec_close(points@[ind as int], points@[nb as int], speps));
                    }
                }
            }
        }
        t += 1;
    }
    proof {
        assert forall|i: int, j: int| #![trigger c@[i], done.contains(j)]
            0 <= i < n && 0 <= j < n && c@[i] is Noise && done.contains(j) && spec_is_core(
                points@,
                speps,
                smpt,
                j,
            ) implies !spec_close(points@[j], points@[i], speps) by {
            if j != ind as int {
                assert(done.remove(ind as int).contains(j));
            }
        }
        assert forall|a: int, q: int| #![trigger c@[a], v@[q]]
            0 <= a < n && 0 <= q < n && c@[a] is Core && !v@[q] implies !spec_close(
            points@[a],
            points@[q],
            speps,
        ) by {
            if a == ind as int {
                lemma_close_symmetric(points@[a], points@[q], speps);
            }
        }
    }
    (true, Ghost(near_current))
}

/// What the clustering promises of its output: labels match core-ness
/// exactly, cluster ids are in range, every edge point names a close core
/// point's cluster, noise is exactly the points near no core point, and the
/// core cluster ids are exactly the density-connected components — close
/// core points share an id, and core points with one id are chain-connected
/// (the converse direction is `lemma_connected_cores_share_id`).
pub open spec fn dbscan_post(
    points: Seq<(i64, i64)>,
    eps: int,
    min_points: int,
    cls: Seq<Classification>,
) -> bool {
    &&& cls.len() == points.len()
    &&& (forall|i: int|
        0 <= i < cls.len() ==> ((#[trigger] cls[i]) is Core <==> spec_is_core(
            points,
            eps,
            min_points,
            i,
        )))
    &&& (forall|i: int| 0 <= i < cls.len() && (#[trigger] cls[i]) is Core ==> cls[i]->Core_0 < points.len())
    &&& (forall|i: int|
        0 <= i < cls.len() && (#[trigger] cls[i]) is Edge ==> !spec_is_core(points, eps, min_points, i)
            && exists|j: int|
            0 <= j < points.len() && spec_is_core(points, eps, min_points, j) && spec_close(
                points[j],
                points[i],
                eps,
            ) && cls[j] == Classification::Core(cls[i]->Edge_0))
    &&& (forall|i: int|
        0 <= i < cls.len() ==> ((#[trigger] cls[i]) is Noise <==> (!spec_is_core(
            points,
            eps,
            min_points,
            i,
        ) && forall|j: int|
            0 <= j < points.len() && spec_is_core(points, eps, min_points, j) ==> !spec_close(
                points[j],
                points[i],
                eps,
            ))))
    &&& spec_close_cores_same_id(points, eps, cls)
    &&& spec_same_id_connected(points, eps, min_points, cls)
}

/// Classifies every point as `Core`, `Edge` or `Noise` by the DBSCAN
/// worklist algorithm: seeds are taken in index order, every point enters
/// the worklist exactly once, and a popped point with at least `min_points`
/// neighbours strictly within `eps` becomes a core point of the current
/// cluster and enqueues its unvisited neighbours; a neighbour that stays
/// short of `min_points` joins as an edge point.
#[verifier::spinoff_prover]
#[verifier::rlimit(100)]
#[verifier::loop_isolation(false)]
pub fn dbscan_cluster(eps: i64, min_points: usize, points: &Vec<(i64, i64)>) -> (c: Vec<
    Classification,
>)
    requires
        forall|i: int| 0 <= i < points.len() ==> point_in_range(#[trigger] points@[i]),
        0 <= eps <= COORD_LIMIT,
    ensures
        c.len() == points.len(),
        dbscan_post(points@, eps as int, min_points as int, c@),
{
    let n = points.len();
    let ghost speps = eps as int;
    let ghost smpt = min_points as int;
    let mut c: Vec<Classification> = Vec::new();
    let mut v: Vec<bool> = Vec::new();
    let mut fill: usize = 0;
    while fill < n
        invariant
            fill <= n,
            c.len() == fill,
            v.len() == fill,
            forall|i: int| 0 <= i < fill ==> (#[trigger] c@[i]) == Classification::Noise,
            forall|i: int| 0 <= i < fill ==> !(#[trigger] v@[i]),
        decreases n - fill,
    {
        c.push(Classification::Noise);
        v.push(false);
        fill += 1;
    }
    let mut queue: Vec<usize> = Vec::new();
    let ghost mut done: Set<int> = Set::empty();
    proof {
        assert forall|i: int| 0 <= i < n implies (#[trigger] v@[i] <==> (done.contains(i)
            || in_queue(queue@, i))) by {
            assert(!v@[i]);
            assert(!done.contains(i));
            assert(!in_queue(queue@, i));
        }
        assert forall|i: int| 0 <= i < n implies !((#[trigger] c@[i]) is Core) && !(c@[i] is Edge)
            && c@[i] is Noise by {
            assert(c@[i] == Classification::Noise);
        }
    }
    let mut cluster: usize = 0;
    let mut idx: usize = 0;
    while idx < n
        invariant
            idx <= n,
            cluster <= idx,
            n == points.len(),
            queue.len() == 0,
            dbscan_core_inv(points@, speps, smpt, c@, v@, queue@, done, cluster as int),
            dbscan_noise_inv(points@, speps, smpt, c@, done),
            spec_close_cores_same_id(points@, speps, c@),
            spec_same_id_connected(points@, speps, smpt, c@),
            cores_clear_of_unvisited(points@, speps, c@, v@),
            forall|i: int| 0 <= i < idx ==> #[trigger] v@[i],
            forall|i: int| 0 <= i < n && (#[trigger] c@[i]) is Core ==> c@[i]->Core_0 < cluster,
        decreases n - idx,
    {
        if !v[idx] {
            let ghost v_before_seed = v@;
            v.set(idx, true);
            queue.push(idx);
            proof {
                assert(queue@[queue@.len() - 1] == idx);
                assert(in_queue(queue@, idx as int));
                assert forall|i: int| 0 <= i < n implies (#[trigger] v@[i] <==> (done.contains(i)
                    || in_queue(queue@, i))) by {
                    if i != idx && in_queue(queue@, i) {
                        let k = choose|k: int| 0 <= k < queue@.len() && queue@[k] == i;
                        assert(k == 0);
                    }
                }
                assert forall|a: int, k: int| #![trigger c@[a], queue@[k]]
                    0 <= a < n && 0 <= k < queue@.len() && c@[a] is Core && spec_close(
                        points@[a],
                        points@[queue@[k] as int],
                        speps,
                    ) implies c@[a]->Core_0 == cluster by {
                    assert(queue@[k] == idx);
                    assert(!v_before_seed[idx as int]);
                }
            }
            let ghost mut near: Seq<usize> = seq![idx];
            let mut new_cluster = false;
            while queue.len() > 0
                invariant
                    cluster <= idx < n,
                    n == points.len(),
                    forall|i: int| 0 <= i < idx + 1 ==> #[trigger] v@[i],
                    dbscan_core_inv(points@, speps, smpt, c@, v@, queue@, done, cluster as int),
                    dbscan_noise_inv(points@, speps, smpt, c@, done),
                    spec_close_cores_same_id(points@, speps, c@),
                    spec_same_id_connected(points@, speps, smpt, c@),
                    cores_clear_of_unvisited(points@, speps, c@, v@),
                    queue_cores_current(points@, speps, c@, queue@, cluster as int),
                    new_cluster ==> queue_witnesses_ok(
                        points@,
                        speps,
                        c@,
                        queue@,
                        near,
                        cluster as int,
                    ),
                    !new_cluster ==> queue.len() <= 1,
                    forall|i: int|
                        0 <= i < n && (#[trigger] c@[i]) is Core ==> (c@[i]->Core_0 < cluster || (
                        new_cluster && c@[i]->Core_0 == cluster)),
                decreases 2 * count_unvisited(v@) + queue.len(),
            {
                let ghost q_before = queue@;
                let ghost done_before = done;
                let ind = queue.pop().unwrap();
                proof {
                    assert(ind == q_before[q_before.len() - 1]);
                    done = done.insert(ind as int);
                    assert forall|k: int| 0 <= k < queue@.len() implies !done.contains(
                        #[trigger] queue@[k] as int,
                    ) by {
                        assert(queue@[k] == q_before[k]);
                        assert(q_before[k] != q_before[q_before.len() - 1]);
                    }
                    assert forall|i: int| 0 <= i < n implies (#[trigger] v@[i] <==> (done.contains(
                        i,
                    ) || in_queue(queue@, i))) by {
                        if in_queue(queue@, i) {
                            let k = choose|k: int| 0 <= k < queue@.len() && queue@[k] == i;
                            assert(q_before[k] == i);
                        }
                        if v@[i] && !done.contains(i) {
                            let k = choose|k: int| 0 <= k < q_before.len() && q_before[k] == i;
                            assert(k < q_before.len() - 1);
                            assert(queue@[k] == i);
                        }
                    }
                    assert(done.remove(ind as int) =~= done_before);
                }
                proof {
                    assert(!((c@[ind as int]) is Core)) by {
                        assert(!done_before.contains(ind as int));
                    }
                    assert forall|a: int|
                        0 <= a < n && (#[trigger] c@[a]) is Core && spec_close(
                            points@[a],
                            points@[ind as int],
                            speps,
                        ) implies c@[a]->Core_0 == cluster as int by {
                        assert(q_before[q_before.len() - 1] == ind);
                    }
                    assert forall|a: int, k: int| #![trigger c@[a], queue@[k]]
                        0 <= a < n && 0 <= k < queue@.len() && c@[a] is Core && spec_close(
                            points@[a],
                            points@[queue@[k] as int],
                            speps,
                        ) implies c@[a]->Core_0 == cluster as int by {
                        assert(queue@[k] == q_before[k]);
                    }
                }
                let ghost near_before = near;
                // the popped point's recorded witness; meaningful only once
                // the round has labelled a core point
                let ghost ind_witness: usize = if new_cluster {
                    near.last()
                } else {
                    0usize
                };
                proof {
                    near = near.drop_last();
                    if new_cluster {
                        assert(ind_witness == near_before[q_before.len() - 1]);
                        assert forall|k: int| #![trigger near[k]]
                            0 <= k < queue@.len() implies near[k] < n && c@[near[k] as int]
                            is Core && c@[near[k] as int]->Core_0 == cluster && spec_close(
                            points@[near[k] as int],
                            points@[queue@[k] as int],
                            speps,
                        ) by {
                            assert(near[k] == near_before[k]);
                            assert(queue@[k] == q_before[k]);
                        }
                    }
                }
                let ghost v_snap = v@;
                let expanded = expand_one(
                    points,
                    eps,
                    min_points,
                    cluster,
                    new_cluster,
                    ind,
                    &mut c,
                    &mut v,
                    &mut queue,
                    Ghost(done),
                    Ghost(near),
                    Ghost(ind_witness),
                );
                let became_core = expanded.0;
                proof {
                    if became_core || new_cluster {
                        near = expanded.1@;
                    }
                }
                if became_core {
                    new_cluster = true;
                }
                proof {
                    assert forall|i: int| 0 <= i < idx + 1 implies #[trigger] v@[i] by {
                        assert(v_snap[i]);
                    }
                }
            }
            if new_cluster {
                cluster += 1;
            }
        }
        idx += 1;
    }
    proof {
        assert forall|i: int| 0 <= i < n implies #[trigger] done.contains(i) by {
            assert(v@[i]);
            assert(!in_queue(queue@, i));
        }
        assert forall|i: int| 0 <= i < n && (#[trigger] c@[i]) is Edge implies !spec_is_core(
            points@,
            speps,
            smpt,
            i,
        ) by {
            if spec_is_core(points@, speps, smpt, i) {
                assert(c@[i] is Core);
            }
        }
        assert forall|i: int| 0 <= i < n implies ((#[trigger] c@[i]) is Noise <==> (!spec_is_core(
            points@,
            speps,
            smpt,
            i,
        ) && forall|j: int|
            0 <= j < n && spec_is_core(points@, speps, smpt, j) ==> !spec_close(
                points@[j],
                points@[i],
                speps,
            ))) by {
            if c@[i] is Noise {
                assert(!spec_is_core(points@, speps, smpt, i));
                assert forall|j: int|
                    0 <= j < n && spec_is_core(points@, speps, smpt, j) implies !spec_close(
                    points@[j],
                    points@[i],
                    speps,
                ) by {
                    assert(done.contains(j));
                }
            } else {
                if !spec_is_core(points@, speps, smpt, i) {
                    assert(c@[i] is Edge);
                    let j = choose|j: int|
                        0 <= j < n && spec_is_core(points@, speps, smpt, j) && spec_close(
                            points@[j],
                            points@[i],
                            speps,
                        ) && c@[j] == Classification::Core(c@[i]->Edge_0);
                    assert(spec_close(points@[j], points@[i], speps));
                }
            }
        }
    }
    c
}

} // verus!
