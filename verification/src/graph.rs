//! A small verified directed-graph toolkit: breadth-first search with a
//! soundness and completeness proof, over nodes named by index.

use vstd::prelude::*;

verus! {

/// `ws` lists edge indices forming a walk from `a` to `b` over `edges`.
pub open spec fn is_walk(edges: Seq<(usize, usize)>, a: int, b: int, ws: Seq<int>) -> bool
    decreases ws.len(),
{
    if ws.len() == 0 {
        a == b
    } else {
        &&& 0 <= ws[0] < edges.len()
        &&& edges[ws[0]].0 == a
        &&& is_walk(edges, edges[ws[0]].1 as int, b, ws.skip(1))
    }
}

/// `b` can be reached from `a` along `edges`.
pub open spec fn reach(edges: Seq<(usize, usize)>, a: int, b: int) -> bool {
    exists|ws: Seq<int>| is_walk(edges, a, b, ws)
}

/// `b` can be reached from some seed node.
pub open spec fn reach_from_any(edges: Seq<(usize, usize)>, seeds: Seq<usize>, b: int) -> bool {
    exists|k: int| 0 <= k < seeds.len() && reach(edges, seeds[k] as int, b)
}

/// All edge endpoints lie below `n`.
pub open spec fn edges_bounded(edges: Seq<(usize, usize)>, n: int) -> bool {
    forall|k: int|
        0 <= k < edges.len() ==> (#[trigger] edges[k].0 as int) < n && (edges[k].1 as int) < n
}

/// All listed nodes lie below `n`.
pub open spec fn nodes_bounded(seeds: Seq<usize>, n: int) -> bool {
    forall|k: int| 0 <= k < seeds.len() ==> (#[trigger] seeds[k] as int) < n
}

/// Every queue entry is a discovered node.
pub open spec fn queue_discovered(queue: Seq<usize>, paths: Seq<Option<Vec<usize>>>, n: int) -> bool {
    forall|j: int|
        0 <= j < queue.len() ==> (#[trigger] queue[j] as int) < n && paths[queue[j] as int] is Some
}

/// Every discovered node sits somewhere in the queue.
pub open spec fn discovered_in_queue(paths: Seq<Option<Vec<usize>>>, queue: Seq<usize>, n: int) -> bool {
    forall|v: int|
        0 <= v < n && (#[trigger] paths[v]) is Some ==> exists|j: int|
            0 <= j < queue.len() && queue[j] == v
}

/// The stored walk of a discovered node really leads from some seed to it.
pub open spec fn discovered_sound(
    paths: Seq<Option<Vec<usize>>>,
    edges: Seq<(usize, usize)>,
    seeds: Seq<usize>,
    n: int,
) -> bool {
    forall|v: int|
        0 <= v < n && (#[trigger] paths[v]) is Some ==> exists|k: int|
            0 <= k < seeds.len() && is_walk(
                edges,
                seeds[k] as int,
                v,
                paths[v]->0@.map_values(|e: usize| e as int),
            )
}

/// All successors of the first `qhead` queue entries are discovered.
pub open spec fn processed_closed(
    queue: Seq<usize>,
    qhead: int,
    edges: Seq<(usize, usize)>,
    paths: Seq<Option<Vec<usize>>>,
) -> bool {
    forall|j: int, k: int|
        0 <= j < qhead && 0 <= k < edges.len() && (edges[k].0 as int) == (
        #[trigger] queue[j] as int) ==> paths[#[trigger] edges[k].1 as int] is Some
}

/// No node enters the queue twice.
pub open spec fn queue_distinct(queue: Seq<usize>) -> bool {
    forall|j1: int, j2: int|
        0 <= j1 < j2 < queue.len() ==> (#[trigger] queue[j1]) != (#[trigger] queue[j2])
}

/// Appending one edge to a walk keeps it a walk.
proof fn lemma_walk_extend(edges: Seq<(usize, usize)>, a: int, b: int, ws: Seq<int>, k: int)
    requires
        is_walk(edges, a, b, ws),
        0 <= k < edges.len(),
        edges[k].0 == b,
    ensures
        is_walk(edges, a, edges[k].1 as int, ws.push(k)),
    decreases ws.len(),
{
    if ws.len() == 0 {
        assert(ws.push(k)[0] == k);
        assert(ws.push(k).skip(1) =~= Seq::<int>::empty());
        assert(is_walk(edges, edges[k].1 as int, edges[k].1 as int, ws.push(k).skip(1)));
    } else {
        lemma_walk_extend(edges, edges[ws[0]].1 as int, b, ws.skip(1), k);
        assert(ws.push(k)[0] == ws[0]);
        assert(ws.push(k).skip(1) =~= ws.skip(1).push(k));
        assert(is_walk(edges, edges[ws[0]].1 as int, edges[k].1 as int, ws.push(k).skip(1)));
    }
}

/// Every walk out of a visited set that is closed under edges stays inside
/// the set.
proof fn lemma_closed_under_edges(
    edges: Seq<(usize, usize)>,
    visited: Seq<bool>,
    a: int,
    b: int,
    ws: Seq<int>,
)
    requires
        is_walk(edges, a, b, ws),
        0 <= a < visited.len(),
        visited[a],
        edges_bounded(edges, visited.len() as int),
        forall|k: int|
            0 <= k < edges.len() && visited[edges[k].0 as int] ==> visited[
                #[trigger] edges[k].1 as int],
    ensures
        0 <= b < visited.len(),
        visited[b],
    decreases ws.len(),
{
    if ws.len() > 0 {
        assert(edges[ws[0]].0 == a);
        assert(visited[edges[ws[0]].1 as int]);
        lemma_closed_under_edges(edges, visited, edges[ws[0]].1 as int, b, ws.skip(1));
    }
}

/// Discovers every not-yet-discovered successor of `u`, storing a walk that
/// extends the one stored for `u`.
#[verifier::rlimit(100)]
fn process_node(
    n: usize,
    edges: &Vec<(usize, usize)>,
    seeds: &Vec<usize>,
    paths: &mut Vec<Option<Vec<usize>>>,
    queue: &mut Vec<usize>,
    u: usize,
)
    requires
        edges_bounded(edges@, n as int),
        nodes_bounded(seeds@, n as int),
        old(paths)@.len() == n,
        (u as int) < n,
        old(paths)@[u as int] is Some,
        queue_discovered(old(queue)@, old(paths)@, n as int),
        discovered_in_queue(old(paths)@, old(queue)@, n as int),
        discovered_sound(old(paths)@, edges@, seeds@, n as int),
        queue_distinct(old(queue)@),
    ensures
        final(paths)@.len() == n,
        queue_discovered(final(queue)@, final(paths)@, n as int),
        discovered_in_queue(final(paths)@, final(queue)@, n as int),
        discovered_sound(final(paths)@, edges@, seeds@, n as int),
        queue_distinct(final(queue)@),
        // discovery is monotone: nothing already discovered changes
        forall|v: int| 0 <= v < n && old(paths)@[v] is Some ==> #[trigger] final(paths)@[v] == old(
            paths,
        )@[v],
        // the queue only grows
        final(queue)@.len() >= old(queue)@.len(),
        forall|j: int| 0 <= j < old(queue)@.len() ==> #[trigger] final(queue)@[j] == old(queue)@[j],
        // afterwards every successor of `u` is discovered
        forall|k: int|
            0 <= k < edges@.len() && (edges@[k].0 as int) == u as int ==> final(paths)@[
                #[trigger] edges@[k].1 as int] is Some,
{
    let mut k: usize = 0;
    while k < edges.len()
        invariant
            k <= edges@.len(),
            edges_bounded(edges@, n as int),
            nodes_bounded(seeds@, n as int),
            paths@.len() == n,
            (u as int) < n,
            paths@[u as int] is Some,
            queue_discovered(queue@, paths@, n as int),
            discovered_in_queue(paths@, queue@, n as int),
            discovered_sound(paths@, edges@, seeds@, n as int),
            queue_distinct(queue@),
            forall|v: int| 0 <= v < n && old(paths)@[v] is Some ==> #[trigger] paths@[v] == old(
                paths,
            )@[v],
            queue@.len() >= old(queue)@.len(),
            forall|j: int| 0 <= j < old(queue)@.len() ==> #[trigger] queue@[j] == old(queue)@[j],
            forall|kk: int|
                0 <= kk < k && (edges@[kk].0 as int) == u as int ==> paths@[#[trigger] edges@[
                    kk].1 as int] is Some,
        decreases edges@.len() - k,
    {
        let (from, to) = edges[k];
        if from == u && paths[to].is_none() {
            let mut ext = match &paths[u as usize] {
                Some(p) => clone_usizes(p),
                None => {
                    proof {
                        assert(false);
                    }
                    Vec::new()
                },
            };
            ext.push(k);
            let ghost extv = ext@;
            proof {
                let prev = paths@[u as int]->0@.map_values(|e: usize| e as int);
                let kk0 = choose|kk0: int|
                    0 <= kk0 < seeds@.len() && is_walk(edges@, seeds@[kk0] as int, u as int, prev);
                lemma_walk_extend(edges@, seeds@[kk0] as int, u as int, prev, k as int);
                assert(extv.map_values(|e: usize| e as int) =~= prev.push(k as int));
                assert(is_walk(
                    edges@,
                    seeds@[kk0] as int,
                    to as int,
                    extv.map_values(|e: usize| e as int),
                ));
            }
            let ghost paths_before = paths@;
            let ghost queue_before = queue@;
            paths.set(to, Some(ext));
            queue.push(to);
            proof {
                assert(paths@[to as int]->0@ == extv);
                assert(queue@[queue@.len() - 1] == to);
                assert forall|v: int|
                    0 <= v < n && (#[trigger] paths@[v]) is Some implies exists|j: int|
                    0 <= j < queue@.len() && queue@[j] == v by {
                    if v == to as int {
                        assert(queue@[queue@.len() - 1] == v);
                    } else {
                        assert(paths_before[v] is Some);
                        let j = choose|j: int|
                            0 <= j < queue_before.len() && queue_before[j] == v;
                        assert(queue@[j] == v);
                    }
                }
            }
        }
        k += 1;
    }
}

/// Breadth-first search from `seeds` over `edges`, all of whose endpoints
/// are below `n`.  Returns, for every node, whether it is reachable from a
/// seed, and for the reachable ones a concrete walk from some seed.
#[verifier::rlimit(100)]
pub fn bfs_walks(n: usize, edges: &Vec<(usize, usize)>, seeds: &Vec<usize>) -> (r: Vec<
    Option<Vec<usize>>,
>)
    requires
        edges_bounded(edges@, n as int),
        nodes_bounded(seeds@, n as int),
    ensures
        r@.len() == n,
        forall|v: int| 0 <= v < n ==> ((#[trigger] r@[v]) is Some <==> reach_from_any(
            edges@,
            seeds@,
            v,
        )),
        discovered_sound(r@, edges@, seeds@, n as int),
{
    let mut paths: Vec<Option<Vec<usize>>> = Vec::new();
    let mut i: usize = 0;
    while i < n
        invariant
            i <= n,
            paths@.len() == i,
            forall|v: int| 0 <= v < i ==> (#[trigger] paths@[v]) is None,
        decreases n - i,
    {
        paths.push(None);
        i += 1;
    }

    let mut queue: Vec<usize> = Vec::new();
    let mut qhead: usize = 0;

    let mut s: usize = 0;
    while s < seeds.len()
        invariant
            s <= seeds@.len(),
            paths@.len() == n,
            edges_bounded(edges@, n as int),
            nodes_bounded(seeds@, n as int),
            queue_discovered(queue@, paths@, n as int),
            discovered_in_queue(paths@, queue@, n as int),
            discovered_sound(paths@, edges@, seeds@, n as int),
            queue_distinct(queue@),
            forall|k: int| 0 <= k < s ==> paths@[#[trigger] seeds@[k] as int] is Some,
        decreases seeds@.len() - s,
    {
        let v = seeds[s];
        if paths[v].is_none() {
            let ghost paths_before = paths@;
            let ghost queue_before = queue@;
            paths.set(v, Some(Vec::new()));
            queue.push(v);
            proof {
                let ws = Seq::<int>::empty();
                assert(is_walk(edges@, seeds@[s as int] as int, v as int, ws));
                assert(paths@[v as int]->0@.map_values(|e: usize| e as int) =~= ws);
                assert(queue@[queue@.len() - 1] == v);
                assert forall|w: int|
                    0 <= w < n && (#[trigger] paths@[w]) is Some implies exists|j: int|
                    0 <= j < queue@.len() && queue@[j] == w by {
                    if w == v as int {
                        assert(queue@[queue@.len() - 1] == w);
                    } else {
                        assert(paths_before[w] is Some);
                        let j = choose|j: int|
                            0 <= j < queue_before.len() && queue_before[j] == w;
                        assert(queue@[j] == w);
                    }
                }
            }
        }
        s += 1;
    }

    while qhead < queue.len()
        invariant
            paths@.len() == n,
            qhead <= queue@.len(),
            edges_bounded(edges@, n as int),
            nodes_bounded(seeds@, n as int),
            queue_discovered(queue@, paths@, n as int),
            discovered_in_queue(paths@, queue@, n as int),
            discovered_sound(paths@, edges@, seeds@, n as int),
            queue_distinct(queue@),
            forall|k: int| 0 <= k < seeds@.len() ==> paths@[#[trigger] seeds@[k] as int] is Some,
            processed_closed(queue@, qhead as int, edges@, paths@),
        decreases n - qhead,
    {
        let u = queue[qhead];
        let ghost queue_before = queue@;
        process_node(n, edges, seeds, &mut paths, &mut queue, u);
        proof {
            assert forall|j: int, k: int|
                0 <= j < qhead + 1 && 0 <= k < edges@.len() && (edges@[k].0 as int) == (
                #[trigger] queue@[j] as int) implies paths@[#[trigger] edges@[k].1 as int] is Some by {
                if j < qhead {
                    assert(queue@[j] == queue_before[j]);
                }
            }
            lemma_distinct_bounded(queue@, n as int);
        }
        qhead += 1;
    }

    proof {
        // completeness: anything reachable from a seed is discovered
        assert forall|v: int| 0 <= v < n && reach_from_any(edges@, seeds@, v) implies paths@[
            v] is Some by {
            let k = choose|k: int| 0 <= k < seeds@.len() && reach(edges@, seeds@[k] as int, v);
            let ws = choose|ws: Seq<int>| is_walk(edges@, seeds@[k] as int, v, ws);
            let flags = Seq::new(n as nat, |x: int| paths@[x] is Some);
            assert forall|e: int|
                0 <= e < edges@.len() && flags[edges@[e].0 as int] implies flags[
                #[trigger] edges@[e].1 as int] by {
                let u = edges@[e].0;
                assert(paths@[u as int] is Some);
                let j = choose|j: int| 0 <= j < queue@.len() && queue@[j] == u;
                assert(paths@[edges@[e].1 as int] is Some);
            }
            lemma_closed_under_edges(edges@, flags, seeds@[k] as int, v, ws);
        }
    }
    paths
}

/// A sequence of distinct values below `n` has at most `n` elements.
proof fn lemma_distinct_bounded(q: Seq<usize>, n: int)
    requires
        nodes_bounded(q, n),
        queue_distinct(q),
        0 <= n <= usize::MAX as int + 1,
    ensures
        q.len() <= n,
{
    let s = q.to_set();
    assert(q.no_duplicates());
    q.unique_seq_to_set();
    assert(q.to_set().len() == q.len());
    let bound = Set::new(|x: usize| 0 <= (x as int) < n);
    assert(s.subset_of(bound));
    lemma_usize_range_card(n);
    vstd::set_lib::lemma_len_subset(s, bound);
}

/// The set of `usize` values below `n` has exactly `n` elements.
proof fn lemma_usize_range_card(n: int)
    requires
        0 <= n <= usize::MAX as int + 1,
    ensures
        Set::new(|x: usize| 0 <= (x as int) < n).finite(),
        Set::new(|x: usize| 0 <= (x as int) < n).len() == n,
    decreases n,
{
    if n == 0 {
        assert(Set::new(|x: usize| 0 <= (x as int) < 0) =~= Set::<usize>::empty());
    } else {
        lemma_usize_range_card(n - 1);
        let prev = Set::new(|x: usize| 0 <= (x as int) < n - 1);
        let cur = Set::new(|x: usize| 0 <= (x as int) < n);
        assert(cur =~= prev.insert((n - 1) as usize));
    }
}

/// Copies a vector of indices.
pub fn clone_usizes(v: &Vec<usize>) -> (r: Vec<usize>)
    ensures
        r@ == v@,
{
    let mut r: Vec<usize> = Vec::new();
    let mut i: usize = 0;
    while i < v.len()
        invariant
            i <= v@.len(),
            r@ == v@.subrange(0, i as int),
        decreases v@.len() - i,
    {
        r.push(v[i]);
        proof {
            assert(r@ =~= v@.subrange(0, i + 1));
        }
        i += 1;
    }
    proof {
        assert(v@.subrange(0, v@.len() as int) =~= v@);
    }
    r
}

} // verus!

verus! {

/// Every edge index on a walk is in range.
pub proof fn lemma_walk_bounds(edges: Seq<(usize, usize)>, a: int, b: int, ws: Seq<int>)
    requires
        is_walk(edges, a, b, ws),
    ensures
        forall|i: int| 0 <= i < ws.len() ==> 0 <= #[trigger] ws[i] < edges.len(),
    decreases ws.len(),
{
    if ws.len() > 0 {
        lemma_walk_bounds(edges, edges[ws[0]].1 as int, b, ws.skip(1));
        assert forall|i: int| 0 <= i < ws.len() implies 0 <= #[trigger] ws[i] < edges.len() by {
            if i > 0 {
                assert(ws.skip(1)[i - 1] == ws[i]);
            }
        }
    }
}

} // verus!
