use vstd::prelude::*;
use crate::hex::{AxialCoord, HexDirection, IMPASSABLE_COST, Node, direction_at, lemma_step_back, opposite, direction_index, step};
use crate::map::{HexMap, lemma_index_unique};

verus! {

/// Distance of a node from which no finish hex can be reached.
pub const UNREACHABLE: i32 = i32::MAX;

/// Marks a missing neighbour in an adjacency row.
pub const NO_NODE: usize = usize::MAX;

/// The index of the neighbour of node `a` in direction `i`, or `NO_NODE`.
pub open spec fn neighbor_spec(m: HexMap, a: int, i: int) -> usize {
    match m.index_of(step(m.coords@[a], direction_at(i))) {
        Some(k) => k as usize,
        None => NO_NODE,
    }
}

/// Whether an adjacency table lists, for every node and direction, the
/// neighbour's index or `NO_NODE`.
pub open spec fn adjacency_of(m: HexMap, adj: Seq<[usize; 6]>) -> bool {
    &&& adj.len() == m.coords@.len()
    &&& forall|a: int, i: int|
        0 <= a < adj.len() && 0 <= i < 6 ==> #[trigger] adj[a]@[i] == neighbor_spec(m, a, i)
}

/// Whether node `v` is entered by the distance search: cheap enough.
pub open spec fn passable(m: HexMap, v: int) -> bool {
    m.nodes@[v].cost < IMPASSABLE_COST
}

/// Whether node `v` is a hex of the finish board.
pub open spec fn on_finish(m: HexMap, v: int) -> bool {
    m.nodes@[v].board_idx == m.finish_idx
}

/// Whether some neighbour of `v` is one step closer to the finish.
pub open spec fn has_closer_neighbor(adj: Seq<[usize; 6]>, dists: Seq<i32>, v: int) -> bool {
    exists|i: int|
        0 <= i < 6 && (#[trigger] adj[v]@[i]) < dists.len() && dists[adj[v]@[i] as int] == dists[v] - 1
}

/// Whether every passable neighbour of a reached node `u` is reached and at
/// most one step farther.
pub open spec fn settled(m: HexMap, adj: Seq<[usize; 6]>, dists: Seq<i32>, u: int) -> bool {
    forall|i: int|
        0 <= i < 6 && (#[trigger] adj[u]@[i]) < dists.len() && passable(m, adj[u]@[i] as int) ==> dists[adj[u]@[i] as int] != UNREACHABLE
            && dists[adj[u]@[i] as int] <= dists[u] + 1
}

/// Hex-step distances to the finish board: the finish is at zero, every
/// other reached node has a neighbour one step closer, impassable nodes off
/// the finish are never reached, and no reached node has a passable
/// neighbour more than one step farther. These facts determine the
/// breadth-first distances.
pub open spec fn bfs_distances(m: HexMap, adj: Seq<[usize; 6]>, dists: Seq<i32>) -> bool {
    &&& dists.len() == m.coords@.len()
    &&& forall|v: int| 0 <= v < dists.len() ==> (on_finish(m, v) <==> #[trigger] dists[v] == 0)
    &&& forall|v: int| 0 <= v < dists.len() ==> #[trigger] dists[v] >= 0
    &&& forall|v: int| 0 <= v < dists.len() && !on_finish(m, v) && !passable(m, v) ==> #[trigger] dists[v] == UNREACHABLE
    &&& forall|v: int| 0 <= v < dists.len() && 0 < dists[v] < UNREACHABLE ==> #[trigger] has_closer_neighbor(adj, dists, v)
    &&& forall|u: int| 0 <= u < dists.len() && dists[u] != UNREACHABLE ==> #[trigger] settled(m, adj, dists, u)
}

/// The largest reached distance, or zero when nothing is reached.
pub open spec fn is_max_dist(dists: Seq<i32>, d: i32) -> bool {
    &&& 0 <= d
    &&& forall|v: int| 0 <= v < dists.len() && dists[v] != UNREACHABLE ==> #[trigger] dists[v] <= d
    &&& (d > 0 ==> exists|v: int| 0 <= v < dists.len() && #[trigger] dists[v] == d)
}

/// Precomputed adjacency and distances to the finish board.
#[derive(Clone, Debug)]
pub struct HexGraph {
    /// Neighbour indices per node and direction; `NO_NODE` where missing.
    pub adj: Vec<[usize; 6]>,
    /// Hex-step distance to the nearest finish hex; `UNREACHABLE` if none.
    pub dists: Vec<i32>,
    /// The largest reached distance.
    pub max_dist: i32,
}

/// Adjacency is symmetric: the neighbour in the opposite direction of a
/// neighbour is the node itself.
pub proof fn lemma_adjacency_symmetric(m: HexMap, adj: Seq<[usize; 6]>, a: int, i: int)
    requires
        m.wf(),
        adjacency_of(m, adj),
        adj.len() <= usize::MAX,
        0 <= a < adj.len(),
        0 <= i < 6,
        adj[a]@[i] < adj.len(),
    ensures
        adj[adj[a]@[i] as int]@[direction_index(opposite(direction_at(i)))] as int == a,
        0 <= direction_index(opposite(direction_at(i))) < 6,
{
    let b = adj[a]@[i] as int;
    let d = direction_at(i);
    let c = step(m.coords@[a], d);
    assert(adj[a]@[i] == neighbor_spec(m, a, i));
    assert(m.index_of(c) is Some);
    let k = m.index_of(c).unwrap();
    assert(0 <= k < m.coords@.len() && m.coords@[k] == c);
    assert(k == b);
    let j = direction_index(opposite(d));
    assert(direction_at(j) == opposite(d));
    lemma_step_back(m.coords@[a], d);
    assert(step(m.coords@[b], opposite(d)) == m.coords@[a]);
    lemma_index_unique(&m, a, m.coords@[a]);
    assert(adj[b]@[j] == neighbor_spec(m, b, j));
}

/// The index of the neighbour of `pos` in direction `dir`, or `NO_NODE`.
fn neighbor_index(map: &HexMap, a: usize, i: usize) -> (r: usize)
    requires
        map.wf(),
        a < map.coords@.len(),
        i < 6,
    ensures
        r == neighbor_spec(*map, a as int, i as int),
{
    let pos = map.coords[a];
    let dir = HexDirection::from_index(i);
    let nbr = dir.neighbor_coord(pos);
    match map.node_idx(nbr) {
        Some(k) => k,
        None => NO_NODE,
    }
}

/// The adjacency table of a map.
fn create_adjacencies(map: &HexMap) -> (r: Vec<[usize; 6]>)
    requires
        map.wf(),
    ensures
        adjacency_of(*map, r@),
{
    let mut adj: Vec<[usize; 6]> = Vec::new();
    let mut a: usize = 0;
    while a < map.coords.len()
        invariant
            map.wf(),
            a <= map.coords@.len(),
            adj@.len() == a,
            forall|b: int, i: int| 0 <= b < a && 0 <= i < 6 ==> #[trigger] adj@[b]@[i] == neighbor_spec(*map, b, i),
        decreases map.coords@.len() - a,
    {
        let row = [
            neighbor_index(map, a, 0),
            neighbor_index(map, a, 1),
            neighbor_index(map, a, 2),
            neighbor_index(map, a, 3),
            neighbor_index(map, a, 4),
            neighbor_index(map, a, 5),
        ];
        proof {
            assert forall|i: int| 0 <= i < 6 implies #[trigger] row@[i] == neighbor_spec(*map, a as int, i) by {
                if i == 0 {} else if i == 1 {} else if i == 2 {} else if i == 3 {} else if i == 4 {} else {}
            }
        }
        adj.push(row);
        a = a + 1;
    }
    adj
}

/// Number of unreached entries.
pub open spec fn count_unreached(s: Seq<i32>) -> nat
    decreases s.len(),
{
    if s.len() == 0 {
        0
    } else {
        count_unreached(s.drop_last()) + if s.last() == UNREACHABLE {
            1nat
        } else {
            0nat
        }
    }
}

/// Reaching one more entry lowers the count by one.
proof fn lemma_count_unreached_update(s: Seq<i32>, i: int, v: i32)
    requires
        0 <= i < s.len(),
        s[i] == UNREACHABLE,
        v != UNREACHABLE,
    ensures
        count_unreached(s.update(i, v)) + 1 == count_unreached(s),
    decreases s.len(),
{
    if i == s.len() - 1 {
        assert(s.update(i, v).drop_last() =~= s.drop_last());
    } else {
        assert(s.update(i, v).drop_last() =~= s.drop_last().update(i, v));
        lemma_count_unreached_update(s.drop_last(), i, v);
    }
}

/// Changing only unreached entries to reached ones keeps what was known of
/// a closer neighbour.
proof fn lemma_closer_kept(adj: Seq<[usize; 6]>, d1: Seq<i32>, d2: Seq<i32>, v: int)
    requires
        d1.len() == d2.len(),
        forall|w: int| 0 <= w < d1.len() && d1[w] != UNREACHABLE ==> #[trigger] d2[w] == d1[w],
        0 <= v < d1.len(),
        0 < d1[v] < UNREACHABLE,
        has_closer_neighbor(adj, d1, v),
    ensures
        has_closer_neighbor(adj, d2, v),
{
    let i = choose|i: int|
        0 <= i < 6 && (#[trigger] adj[v]@[i]) < d1.len() && d1[adj[v]@[i] as int] == d1[v] - 1;
    assert(d2[adj[v]@[i] as int] == d1[adj[v]@[i] as int]);
}

/// Changing only unreached entries to reached ones keeps a node settled.
proof fn lemma_settled_kept(m: HexMap, adj: Seq<[usize; 6]>, d1: Seq<i32>, d2: Seq<i32>, u: int)
    requires
        d1.len() == d2.len(),
        forall|w: int| 0 <= w < d1.len() && d1[w] != UNREACHABLE ==> #[trigger] d2[w] == d1[w],
        0 <= u < d1.len(),
        d1[u] != UNREACHABLE,
        settled(m, adj, d1, u),
    ensures
        settled(m, adj, d2, u),
{
    assert forall|i: int|
        0 <= i < 6 && (#[trigger] adj[u]@[i]) < d2.len() && passable(m, adj[u]@[i] as int) implies d2[adj[u]@[i] as int] != UNREACHABLE
            && d2[adj[u]@[i] as int] <= d2[u] + 1 by {
        assert(d1[adj[u]@[i] as int] != UNREACHABLE);
    }
}

/// Reaches the unreached passable neighbours of `u`, which is at distance
/// `k`, at distance `k + 1`, and lists them in `next`.
fn relax(
    map: &HexMap,
    adj: &Vec<[usize; 6]>,
    u: usize,
    k: i32,
    dists: &mut Vec<i32>,
    next: &mut Vec<usize>,
)
    requires
        map.wf(),
        adjacency_of(*map, adj@),
        adj@.len() == old(dists)@.len(),
        u < old(dists)@.len(),
        old(dists)@[u as int] == k,
        0 <= k < i32::MAX - 1,
        forall|v: int| 0 <= v < old(dists)@.len() && #[trigger] old(dists)@[v] != UNREACHABLE ==> old(dists)@[v] <= k + 1,
        forall|v: int| 0 <= v < old(dists)@.len() ==> (#[trigger] old(dists)@[v] == k + 1 <==> old(next)@.contains(v as usize)),
        forall|j: int| 0 <= j < old(next)@.len() ==> #[trigger] old(next)@[j] < old(dists)@.len(),
    ensures
        final(dists)@.len() == old(dists)@.len(),
        forall|v: int| 0 <= v < old(dists)@.len() && old(dists)@[v] != UNREACHABLE ==> #[trigger] final(dists)@[v] == old(dists)@[v],
        forall|v: int|
            0 <= v < old(dists)@.len() && #[trigger] final(dists)@[v] != old(dists)@[v] ==> final(dists)@[v] == k + 1
                && passable(*map, v) && has_closer_neighbor(adj@, final(dists)@, v),
        settled(*map, adj@, final(dists)@, u as int),
        forall|v: int| 0 <= v < final(dists)@.len() ==> (#[trigger] final(dists)@[v] == k + 1 <==> final(next)@.contains(v as usize)),
        forall|j: int| 0 <= j < final(next)@.len() ==> #[trigger] final(next)@[j] < final(dists)@.len(),
        count_unreached(final(dists)@) + final(next)@.len() == count_unreached(old(dists)@) + old(next)@.len(),
{
    let ghost d0 = dists@;
    let ghost n0 = next@;
    let n = dists.len();
    let mut i: usize = 0;
    while i < 6
        invariant
            map.wf(),
            adjacency_of(*map, adj@),
            adj@.len() == n,
            n == d0.len(),
            dists@.len() == n,
            u < n,
            d0[u as int] == k,
            0 <= k < i32::MAX - 1,
            i <= 6,
            forall|v: int| 0 <= v < n && #[trigger] dists@[v] != UNREACHABLE ==> dists@[v] <= k + 1,
            forall|v: int| 0 <= v < n && d0[v] != UNREACHABLE ==> #[trigger] dists@[v] == d0[v],
            forall|v: int|
                0 <= v < n && #[trigger] dists@[v] != d0[v] ==> dists@[v] == k + 1 && passable(*map, v)
                    && has_closer_neighbor(adj@, dists@, v),
            forall|j: int|
                0 <= j < i && (#[trigger] adj@[u as int]@[j]) < n && passable(*map, adj@[u as int]@[j] as int) ==> dists@[adj@[u as int]@[j] as int] != UNREACHABLE
                    && dists@[adj@[u as int]@[j] as int] <= k + 1,
            forall|v: int| 0 <= v < n ==> (#[trigger] dists@[v] == k + 1 <==> next@.contains(v as usize)),
            forall|j: int| 0 <= j < next@.len() ==> #[trigger] next@[j] < n,
            count_unreached(dists@) + next@.len() == count_unreached(d0) + n0.len(),
        decreases 6 - i,
    {
        let v = adj[u][i];
        if v < n && dists[v] == UNREACHABLE && map.nodes[v].cost < IMPASSABLE_COST {
            let ghost before = dists@;
            let ghost nb = next@;
            proof {
                lemma_count_unreached_update(before, v as int, (k + 1) as i32);
                lemma_adjacency_symmetric(*map, adj@, u as int, i as int);
            }
            dists.set(v, k + 1);
            next.push(v);
            proof {
                let back = direction_index(opposite(direction_at(i as int)));
                assert(adj@[v as int]@[back] == u);
                assert(dists@[u as int] == k);
                assert(has_closer_neighbor(adj@, dists@, v as int));
                assert forall|w: int| 0 <= w < n && #[trigger] dists@[w] != d0[w] implies dists@[w] == k + 1 && passable(*map, w)
                    && has_closer_neighbor(adj@, dists@, w) by {
                    if w != v {
                        assert(before[w] != d0[w]);
                        lemma_closer_kept(adj@, before, dists@, w);
                    }
                }
                assert forall|w: int| 0 <= w < n implies (#[trigger] dists@[w] == k + 1 <==> next@.contains(w as usize)) by {
                    if w == v {
                        assert(next@[next@.len() - 1] == v);
                    } else {
                        assert(dists@[w] == before[w]);
                        if nb.contains(w as usize) {
                            let j = choose|j: int| 0 <= j < nb.len() && nb[j] == w as usize;
                            assert(next@[j] == w as usize);
                        }
                        if next@.contains(w as usize) {
                            let j = choose|j: int| 0 <= j < next@.len() && next@[j] == w as usize;
                            assert(j < nb.len());
                            assert(nb[j] == w as usize);
                        }
                    }
                }
            }
        }
        i = i + 1;
    }
    proof {
        assert forall|j: int|
            0 <= j < 6 && (#[trigger] adj@[u as int]@[j]) < dists@.len() && passable(*map, adj@[u as int]@[j] as int) implies dists@[adj@[u as int]@[j] as int] != UNREACHABLE
                && dists@[adj@[u as int]@[j] as int] <= dists@[u as int] + 1 by {}
    }
}

/// Breadth-first hex-step distances from the finish board, layer by layer.
fn create_hex_distances(map: &HexMap, adj: &Vec<[usize; 6]>) -> (r: Vec<i32>)
    requires
        map.wf(),
        adjacency_of(*map, adj@),
        map.coords@.len() < i32::MAX,
    ensures
        bfs_distances(*map, adj@, r@),
{
    let n = map.nodes.len();
    let mut dists: Vec<i32> = Vec::new();
    let mut frontier: Vec<usize> = Vec::new();
    let mut v: usize = 0;
    while v < n
        invariant
            n == map.nodes@.len(),
            v <= n,
            dists@.len() == v,
            forall|w: int| 0 <= w < v ==> (#[trigger] dists@[w] == 0 <==> on_finish(*map, w)),
            forall|w: int| 0 <= w < v ==> (#[trigger] dists@[w] == 0 || dists@[w] == UNREACHABLE),
            forall|w: int| 0 <= w < v ==> (#[trigger] dists@[w] == 0 <==> frontier@.contains(w as usize)),
            forall|j: int| 0 <= j < frontier@.len() ==> #[trigger] frontier@[j] < v,
            count_unreached(dists@) + frontier@.len() == v,
        decreases n - v,
    {
        let ghost before = dists@;
        let ghost fb = frontier@;
        if map.nodes[v].board_idx == map.finish_idx {
            dists.push(0);
            frontier.push(v);
        } else {
            dists.push(UNREACHABLE);
        }
        proof {
            assert(dists@.drop_last() =~= before);
            assert forall|w: int| 0 <= w < v + 1 implies (#[trigger] dists@[w] == 0 <==> frontier@.contains(w as usize)) by {
                if w < v {
                    assert(dists@[w] == before[w]);
                    if fb.contains(w as usize) {
                        let j = choose|j: int| 0 <= j < fb.len() && fb[j] == w as usize;
                        assert(frontier@[j] == w as usize);
                    }
                    if frontier@.contains(w as usize) {
                        let j = choose|j: int| 0 <= j < frontier@.len() && frontier@[j] == w as usize;
                        assert(j < fb.len());
                        assert(fb[j] == w as usize);
                    }
                } else {
                    if dists@[w] == 0 {
                        assert(frontier@[frontier@.len() - 1] == v);
                    } else if frontier@.contains(w as usize) {
                        let j = choose|j: int| 0 <= j < frontier@.len() && frontier@[j] == w as usize;
                        assert(frontier@ == fb);
                        assert(fb[j] < v);
                    }
                }
            }
        }
        v = v + 1;
    }
    let mut k: i32 = 0;
    while frontier.len() > 0
        invariant
            map.wf(),
            adjacency_of(*map, adj@),
            n == map.nodes@.len(),
            n == map.coords@.len(),
            n < i32::MAX,
            dists@.len() == n,
            adj@.len() == n,
            0 <= k,
            frontier@.len() > 0 ==> k + 1 + count_unreached(dists@) <= n,
            forall|w: int| 0 <= w < n ==> (#[trigger] dists@[w] == 0 <==> on_finish(*map, w)),
            forall|w: int| 0 <= w < n ==> #[trigger] dists@[w] >= 0,
            forall|w: int| 0 <= w < n && #[trigger] dists@[w] != UNREACHABLE ==> dists@[w] <= k,
            forall|w: int| 0 <= w < n && !on_finish(*map, w) && !passable(*map, w) ==> #[trigger] dists@[w] == UNREACHABLE,
            forall|w: int| 0 <= w < n && 0 < dists@[w] < UNREACHABLE ==> #[trigger] has_closer_neighbor(adj@, dists@, w),
            forall|w: int| 0 <= w < n && dists@[w] < k ==> #[trigger] settled(*map, adj@, dists@, w),
            forall|w: int| 0 <= w < n ==> (#[trigger] dists@[w] == k <==> frontier@.contains(w as usize)),
            forall|j: int| 0 <= j < frontier@.len() ==> #[trigger] frontier@[j] < n,
        decreases count_unreached(dists@) + frontier@.len(),
    {
        let ghost d0 = dists@;
        let mut next: Vec<usize> = Vec::new();
        let mut f: usize = 0;
        while f < frontier.len()
            invariant
                map.wf(),
                adjacency_of(*map, adj@),
                n == map.nodes@.len(),
                n == map.coords@.len(),
                n < i32::MAX,
                dists@.len() == n,
                adj@.len() == n,
                0 <= k,
                k + 1 + count_unreached(d0) <= n,
                f <= frontier@.len(),
                d0.len() == n,
                forall|w: int| 0 <= w < n && d0[w] != UNREACHABLE ==> #[trigger] dists@[w] == d0[w],
                forall|w: int| 0 <= w < n && #[trigger] dists@[w] != d0[w] ==> dists@[w] == k + 1 && passable(*map, w),
                forall|w: int| 0 <= w < n ==> (#[trigger] d0[w] == 0 <==> on_finish(*map, w)),
                forall|w: int| 0 <= w < n ==> #[trigger] d0[w] >= 0,
                forall|w: int| 0 <= w < n && #[trigger] d0[w] != UNREACHABLE ==> d0[w] <= k,
                forall|w: int| 0 <= w < n && !on_finish(*map, w) && !passable(*map, w) ==> #[trigger] d0[w] == UNREACHABLE,
                forall|w: int| 0 <= w < n && 0 < dists@[w] < UNREACHABLE ==> #[trigger] has_closer_neighbor(adj@, dists@, w),
                forall|w: int| 0 <= w < n && d0[w] < k ==> #[trigger] settled(*map, adj@, dists@, w),
                forall|j: int| 0 <= j < f ==> #[trigger] settled(*map, adj@, dists@, frontier@[j] as int),
                forall|w: int| 0 <= w < n ==> (#[trigger] d0[w] == k <==> frontier@.contains(w as usize)),
                forall|j: int| 0 <= j < frontier@.len() ==> #[trigger] frontier@[j] < n,
                forall|w: int| 0 <= w < n ==> (#[trigger] dists@[w] == k + 1 <==> next@.contains(w as usize)),
                forall|j: int| 0 <= j < next@.len() ==> #[trigger] next@[j] < n,
                count_unreached(dists@) + next@.len() == count_unreached(d0),
            decreases frontier@.len() - f,
        {
            let u = frontier[f];
            let ghost before = dists@;
            proof {
                assert(frontier@.contains(u));
                assert(d0[u as int] == k);
                assert forall|w: int| 0 <= w < n && #[trigger] dists@[w] != UNREACHABLE implies dists@[w] <= k + 1 by {
                    if dists@[w] != d0[w] {
                    } else {
                    }
                }
                assert forall|w: int| 0 <= w < n implies (#[trigger] dists@[w] == k + 1 <==> next@.contains(w as usize)) by {}
            }
            relax(map, adj, u, k, &mut dists, &mut next);
            proof {
                assert forall|w: int| 0 <= w < n && 0 < dists@[w] < UNREACHABLE implies #[trigger] has_closer_neighbor(adj@, dists@, w) by {
                    if dists@[w] == before[w] {
                        lemma_closer_kept(adj@, before, dists@, w);
                    }
                }
                assert forall|w: int| 0 <= w < n && d0[w] < k implies #[trigger] settled(*map, adj@, dists@, w) by {
                    lemma_settled_kept(*map, adj@, before, dists@, w);
                }
                assert forall|j: int| 0 <= j < f + 1 implies #[trigger] settled(*map, adj@, dists@, frontier@[j] as int) by {
                    if j < f {
                        let w = frontier@[j] as int;
                        assert(frontier@.contains(w as usize));
                        assert(d0[w] == k);
                        lemma_settled_kept(*map, adj@, before, dists@, w);
                    }
                }
            }
            f = f + 1;
        }
        proof {
            assert forall|w: int| 0 <= w < n && dists@[w] < k + 1 implies #[trigger] settled(*map, adj@, dists@, w) by {
                if d0[w] == k {
                    assert(frontier@.contains(w as usize));
                    let j = choose|j: int| 0 <= j < frontier@.len() && frontier@[j] == w as usize;
                    assert(settled(*map, adj@, dists@, frontier@[j] as int));
                } else if d0[w] == UNREACHABLE {
                    assert(dists@[w] == k + 1);
                }
            }
        }
        frontier = next;
        k = k + 1;
    }
    proof {
        assert forall|w: int| 0 <= w < n && dists@[w] != UNREACHABLE implies #[trigger] settled(*map, adj@, dists@, w) by {
            if dists@[w] == k {
                assert(frontier@.contains(w as usize));
                let j = choose|j: int| 0 <= j < frontier@.len() && frontier@[j] == w as usize;
            }
        }
    }
    dists
}

/// The neighbours of node `idx` in the first `i` directions: index and
/// direction of each that exists.
pub open spec fn neighbors_upto(adj: Seq<[usize; 6]>, idx: int, i: int) -> Seq<(usize, HexDirection)>
    decreases i,
{
    if i <= 0 || !(0 <= idx < adj.len()) {
        Seq::empty()
    } else {
        let prev = neighbors_upto(adj, idx, i - 1);
        let v = adj[idx]@[i - 1];
        if v < adj.len() {
            prev.push((v, direction_at(i - 1)))
        } else {
            prev
        }
    }
}

/// The existing neighbours of node `idx`, in direction order.
pub open spec fn neighbor_list(adj: Seq<[usize; 6]>, idx: int) -> Seq<(usize, HexDirection)> {
    neighbors_upto(adj, idx, 6)
}

/// Listed neighbours are nodes of the graph.
proof fn lemma_neighbors_in_range(adj: Seq<[usize; 6]>, idx: int, i: int)
    ensures
        forall|j: int| 0 <= j < neighbors_upto(adj, idx, i).len() ==> (#[trigger] neighbors_upto(adj, idx, i)[j]).0 < adj.len(),
    decreases i,
{
    if i > 0 && 0 <= idx < adj.len() {
        lemma_neighbors_in_range(adj, idx, i - 1);
        let prev = neighbors_upto(adj, idx, i - 1);
        let cur = neighbors_upto(adj, idx, i);
        assert forall|j: int| 0 <= j < cur.len() implies (#[trigger] cur[j]).0 < adj.len() by {
            if j < prev.len() {
                assert(cur[j] == prev[j]);
            }
        }
    }
}

impl HexGraph {
    /// Whether this graph is the adjacency and distance table of `m`.
    pub open spec fn graph_of(&self, m: HexMap) -> bool {
        &&& adjacency_of(m, self.adj@)
        &&& bfs_distances(m, self.adj@, self.dists@)
        &&& is_max_dist(self.dists@, self.max_dist)
    }

    /// Builds the adjacency table and the distances to the finish board.
    pub fn new(map: &HexMap) -> (r: Self)
        requires
            map.wf(),
            map.coords@.len() < i32::MAX,
        ensures
            r.graph_of(*map),
    {
        let adj = create_adjacencies(map);
        let dists = create_hex_distances(map, &adj);
        let mut max_dist: i32 = 0;
        let mut i: usize = 0;
        while i < dists.len()
            invariant
                i <= dists@.len(),
                0 <= max_dist,
                forall|v: int| 0 <= v < i && dists@[v] != UNREACHABLE ==> #[trigger] dists@[v] <= max_dist,
                max_dist > 0 ==> exists|v: int| 0 <= v < dists@.len() && #[trigger] dists@[v] == max_dist,
            decreases dists@.len() - i,
        {
            let d = dists[i];
            if d != UNREACHABLE && d > max_dist {
                max_dist = d;
            }
            i = i + 1;
        }
        HexGraph { adj, dists, max_dist }
    }

    /// The existing neighbours of node `idx` with their directions.
    pub fn neighbor_indices(&self, idx: usize) -> (r: Vec<(usize, HexDirection)>)
        ensures
            r@ == neighbor_list(self.adj@, idx as int),
    {
        let mut out: Vec<(usize, HexDirection)> = Vec::new();
        if idx >= self.adj.len() {
            return out;
        }
        let mut i: usize = 0;
        while i < 6
            invariant
                idx < self.adj@.len(),
                i <= 6,
                out@ == neighbors_upto(self.adj@, idx as int, i as int),
            decreases 6 - i,
        {
            let v = self.adj[idx][i];
            if v < self.adj.len() {
                out.push((v, HexDirection::from_index(i)));
            }
            i = i + 1;
        }
        out
    }

    /// The existing neighbours of node `idx`: direction, coordinate and node.
    pub fn neighbors_of_idx(&self, map: &HexMap, idx: usize) -> (r: Vec<(HexDirection, AxialCoord, Node)>)
        requires
            self.adj@.len() == map.coords@.len(),
            map.coords@.len() == map.nodes@.len(),
        ensures
            r@.len() == neighbor_list(self.adj@, idx as int).len(),
            forall|j: int|
                0 <= j < r@.len() ==> {
                    let (v, d) = #[trigger] neighbor_list(self.adj@, idx as int)[j];
                    r@[j] == (d, map.coords@[v as int], map.nodes@[v as int])
                },
    {
        let list = self.neighbor_indices(idx);
        proof {
            lemma_neighbors_in_range(self.adj@, idx as int, 6);
        }
        let mut out: Vec<(HexDirection, AxialCoord, Node)> = Vec::new();
        let mut j: usize = 0;
        while j < list.len()
            invariant
                self.adj@.len() == map.coords@.len(),
                map.coords@.len() == map.nodes@.len(),
                list@ == neighbor_list(self.adj@, idx as int),
                forall|t: int| 0 <= t < list@.len() ==> (#[trigger] list@[t]).0 < self.adj@.len(),
                j <= list@.len(),
                out@.len() == j,
                forall|t: int|
                    0 <= t < j ==> {
                        let (v, d) = #[trigger] list@[t];
                        out@[t] == (d, map.coords@[v as int], map.nodes@[v as int])
                    },
            decreases list@.len() - j,
        {
            let (v, d) = list[j];
            assert(list@[j as int].0 < self.adj@.len());
            out.push((d, map.coords[v], map.nodes[v]));
            j = j + 1;
        }
        out
    }

    /// The existing neighbours of the node at `coord`; none if there is no
    /// node there.
    pub fn neighbors_of(&self, map: &HexMap, coord: AxialCoord) -> (r: Vec<(HexDirection, AxialCoord, Node)>)
        requires
            map.wf(),
            self.adj@.len() == map.coords@.len(),
        ensures
            match map.index_of(coord) {
                Some(idx) => {
                    &&& r@.len() == neighbor_list(self.adj@, idx).len()
                    &&& forall|j: int|
                        0 <= j < r@.len() ==> {
                            let (v, d) = #[trigger] neighbor_list(self.adj@, idx)[j];
                            r@[j] == (d, map.coords@[v as int], map.nodes@[v as int])
                        }
                },
                None => r@.len() == 0,
            },
    {
        match map.node_idx(coord) {
            Some(idx) => self.neighbors_of_idx(map, idx),
            None => Vec::new(),
        }
    }
}

} // verus!
