//! Shortest-path search over the map's traversability graph: a
//! breadth-first search over the four-neighbor exits. A returned path
//! is valid and no valid path is shorter; when no path is returned,
//! none exists.

use vstd::prelude::*;
use crate::map::GameMap;

verus! {

/// A well-formed path: it starts at `start`, ends at `goal`, and each
/// consecutive pair is one valid exit step apart.
pub open spec fn is_path(m: GameMap, p: Seq<usize>, start: int, goal: int) -> bool {
    &&& p.len() >= 1
    &&& p[0] == start
    &&& p[p.len() - 1] == goal
    &&& forall|i: int|
        #![trigger p[i]]
        0 <= i < p.len() - 1 ==> m.spec_step(p[i] as int, p[i + 1] as int)
}

/// A shortest path: well formed, and no well-formed path between the
/// same endpoints is shorter.
pub open spec fn is_shortest_path(m: GameMap, p: Seq<usize>, start: int, goal: int) -> bool {
    &&& is_path(m, p, start, goal)
    &&& forall|q: Seq<usize>| #[trigger] is_path(m, q, start, goal) ==> q.len() >= p.len()
}

/// A sequence of distinct machine words below `n` holds at most `n`
/// elements.
proof fn lemma_bounded_nodup_len(s: Seq<usize>, n: int)
    requires
        s.no_duplicates(),
        forall|k: int| 0 <= k < s.len() ==> (#[trigger] s[k] as int) < n,
        0 <= n,
    ensures
        s.len() <= n,
{
    let f = |u: usize| u as int;
    let mapped = s.map_values(f);
    assert forall|i: int, j: int| 0 <= i < j < mapped.len() implies mapped[i] != mapped[j] by {
        assert(s[i] != s[j]);
    }
    assert(mapped.no_duplicates());
    mapped.unique_seq_to_set();
    let range = vstd::set_lib::set_int_range(0, n);
    assert forall|e: int| mapped.to_set().contains(e) implies range.contains(e) by {
        let k = choose|k: int| 0 <= k < mapped.len() && mapped[k] == e;
        assert((s[k] as int) < n);
    }
    vstd::set_lib::lemma_int_range(0, n);
    vstd::set_lib::lemma_len_subset(mapped.to_set(), range);
}

/// Walking any valid step chain from a visited cell stays inside a
/// step-closed visited set, and the recorded distance grows by at
/// most one per step.
proof fn lemma_path_stays_visited(
    m: GameMap,
    visited: Seq<bool>,
    dist: Seq<usize>,
    p: Seq<usize>,
    n: int,
)
    requires
        visited.len() == n,
        dist.len() == n,
        forall|u: int, b: int|
            0 <= u < n && visited[u] && #[trigger] m.spec_step(u, b) ==> 0 <= b < n && visited[b]
                && dist[b] <= dist[u] + 1,
        p.len() >= 1,
        0 <= (p[0] as int) < n,
        visited[p[0] as int],
        forall|i: int|
            #![trigger p[i]]
            0 <= i < p.len() - 1 ==> m.spec_step(p[i] as int, p[i + 1] as int),
    ensures
        0 <= (p[p.len() - 1] as int) < n,
        visited[p[p.len() - 1] as int],
        dist[p[p.len() - 1] as int] <= dist[p[0] as int] + p.len() - 1,
    decreases p.len(),
{
    if p.len() > 1 {
        let q = p.drop_last();
        assert forall|i: int|
            #![trigger q[i]]
            0 <= i < q.len() - 1 implies m.spec_step(q[i] as int, q[i + 1] as int) by {
            assert(q[i] == p[i]);
            assert(q[i + 1] == p[i + 1]);
            assert(m.spec_step(p[i] as int, p[i + 1] as int));
        }
        assert(q[0] == p[0]);
        lemma_path_stays_visited(m, visited, dist, q, n);
        let u = p[p.len() - 2] as int;
        assert(q[q.len() - 1] == p[p.len() - 2]);
        assert(m.spec_step(p[p.len() - 2] as int, p[p.len() - 1] as int));
        assert(visited[u] && dist[u] <= dist[p[0] as int] + p.len() - 2);
    }
}

/// Breadth-first search from `start` to `goal`. A returned path is
/// well formed and as short as any valid path; `None` comes back only
/// when no valid path exists at all.
#[verifier::rlimit(100)]
#[verifier::spinoff_prover]
pub fn path_search(m: &GameMap, start: usize, goal: usize) -> (r: Option<Vec<usize>>)
    requires
        m.inv(),
        start < m.tiles@.len(),
        goal < m.tiles@.len(),
    ensures
        (match r {
            Some(p) => is_shortest_path(*m, p@, start as int, goal as int),
            None => forall|q: Seq<usize>| !is_path(*m, q, start as int, goal as int),
        }),
{
    let n = m.tiles.len();
    if start == goal {
        let p = vec![start];
        proof {
            assert(is_path(*m, p@, start as int, goal as int));
            assert forall|q: Seq<usize>| #[trigger] is_path(*m, q, start as int, goal as int)
                implies q.len() >= p@.len() by {}
        }
        return Some(p);
    }
    let mut visited: Vec<bool> = vec![false; n];
    let mut parent: Vec<usize> = vec![0; n];
    let mut dist: Vec<usize> = vec![0; n];
    visited[start] = true;
    let mut queue: Vec<usize> = vec![start];
    let mut head: usize = 0;
    while head < queue.len()
        invariant
            m.inv(),
            n == m.tiles@.len(),
            start < n,
            goal < n,
            start != goal,
            visited@.len() == n,
            parent@.len() == n,
            dist@.len() == n,
            visited@[start as int],
            dist@[start as int] == 0,
            forall|v: int|
                0 <= v < n && #[trigger] visited@[v] && v != start ==> parent@[v] < n
                    && visited@[parent@[v] as int] && m.spec_step(parent@[v] as int, v) && dist@[v]
                    == dist@[parent@[v] as int] + 1,
            forall|v: int| 0 <= v < n && #[trigger] visited@[v] ==> dist@[v] < queue@.len(),
            head <= queue@.len(),
            queue@.no_duplicates(),
            forall|k: int|
                0 <= k < queue@.len() ==> (#[trigger] queue@[k] as int) < n
                    && visited@[queue@[k] as int],
            forall|v: int|
                0 <= v < n && #[trigger] visited@[v] ==> exists|k: int|
                    0 <= k < queue@.len() && queue@[k] as int == v,
            forall|k1: int, k2: int|
                0 <= k1 <= k2 < queue@.len() ==> dist@[#[trigger] queue@[k1] as int] <= dist@[
                    #[trigger] queue@[k2] as int],
            forall|k: int|
                head < queue@.len() && 0 <= k < queue@.len() ==> dist@[#[trigger] queue@[k] as int]
                    <= dist@[queue@[head as int] as int] + 1,
            forall|k: int, b: int|
                0 <= k < head && #[trigger] m.spec_step(queue@[k] as int, b) ==> 0 <= b < n
                    && visited@[b] && dist@[b] <= dist@[queue@[k] as int] + 1,
        decreases n - head,
    {
        proof {
            lemma_bounded_nodup_len(queue@, n as int);
        }
        let cur = queue[head];
        let dc = dist[cur];
        proof {
            assert(dc < queue@.len());
        }
        let exits = m.get_available_exits(cur);
        let ghost q0 = queue@;
        let ghost v0 = visited@;
        let ghost d0 = dist@;
        let mut k: usize = 0;
        while k < exits.len()
            invariant
                m.inv(),
                n == m.tiles@.len(),
                start < n,
                goal < n,
                start != goal,
                cur < n,
                head < queue@.len(),
                queue@[head as int] == cur,
                visited@[cur as int],
                dc == dist@[cur as int],
                dc as int + 1 <= n,
                k <= exits@.len(),
                forall|j: int|
                    0 <= j < exits@.len() ==> m.spec_step(cur as int, #[trigger] exits@[j] as int)
                        && exits@[j] < n,
                forall|b: int|
                    #[trigger] m.spec_step(cur as int, b) ==> exists|j: int|
                        0 <= j < exits@.len() && exits@[j] as int == b,
                visited@.len() == n,
                parent@.len() == n,
                dist@.len() == n,
                visited@[start as int],
                dist@[start as int] == 0,
                forall|v: int|
                    0 <= v < n && #[trigger] visited@[v] && v != start ==> parent@[v] < n
                        && visited@[parent@[v] as int] && m.spec_step(parent@[v] as int, v)
                        && dist@[v] == dist@[parent@[v] as int] + 1,
                forall|v: int| 0 <= v < n && #[trigger] visited@[v] ==> dist@[v] < queue@.len(),
                queue@.no_duplicates(),
                forall|j: int|
                    0 <= j < queue@.len() ==> (#[trigger] queue@[j] as int) < n
                        && visited@[queue@[j] as int],
                forall|v: int|
                    0 <= v < n && #[trigger] visited@[v] ==> exists|j: int|
                        0 <= j < queue@.len() && queue@[j] as int == v,
                forall|k1: int, k2: int|
                    0 <= k1 <= k2 < queue@.len() ==> dist@[#[trigger] queue@[k1] as int] <= dist@[
                        #[trigger] queue@[k2] as int],
                forall|j: int|
                    0 <= j < queue@.len() ==> dist@[#[trigger] queue@[j] as int] <= dc + 1,
                forall|kk: int, b: int|
                    0 <= kk < head && #[trigger] m.spec_step(queue@[kk] as int, b) ==> 0 <= b < n
                        && visited@[b] && dist@[b] <= dist@[queue@[kk] as int] + 1,
                forall|j: int|
                    0 <= j < k ==> visited@[#[trigger] exits@[j] as int] && dist@[exits@[j] as int]
                        <= dc + 1,
            decreases exits@.len() - k,
        {
            let e = exits[k];
            if !visited[e] {
                let ghost vpre = visited@;
                let ghost dpre = dist@;
                let ghost qpre = queue@;
                visited[e] = true;
                parent[e] = cur;
                dist[e] = dc + 1;
                proof {
                    assert(e != start);
                    assert forall|j: int| 0 <= j < qpre.len() implies qpre[j] != e by {
                        assert(vpre.len() == n);
                    }
                }
                queue.push(e);
                proof {
                    assert forall|v: int| 0 <= v < n && #[trigger] visited@[v] implies exists|j: int|
                        0 <= j < queue@.len() && queue@[j] as int == v by {
                        if v == e {
                            assert(queue@[queue@.len() - 1] as int == v);
                        } else {
                            assert(vpre[v]);
                            let j0 = choose|j0: int|
                                0 <= j0 < qpre.len() && qpre[j0] as int == v;
                            assert(queue@[j0] as int == v);
                        }
                    }
                    assert forall|v: int| 0 <= v < n && #[trigger] visited@[v] implies dist@[v]
                        < queue@.len() by {
                        if v != e {
                            assert(vpre[v] && dpre[v] < qpre.len());
                        }
                    }
                    assert forall|j: int| 0 <= j < queue@.len() implies (
                    #[trigger] queue@[j] as int) < n && visited@[queue@[j] as int] by {
                        if j < qpre.len() {
                            assert(queue@[j] == qpre[j]);
                            assert(vpre[qpre[j] as int]);
                        }
                    }
                    assert forall|v: int|
                        0 <= v < n && #[trigger] visited@[v] && v != start implies parent@[v] < n
                            && visited@[parent@[v] as int] && m.spec_step(parent@[v] as int, v)
                            && dist@[v] == dist@[parent@[v] as int] + 1 by {
                        if v != e {
                            assert(vpre[v]);
                        }
                    }
                    assert forall|k1: int, k2: int| 0 <= k1 <= k2 < queue@.len() implies dist@[
                    #[trigger] queue@[k1] as int] <= dist@[#[trigger] queue@[k2] as int] by {
                        if k2 < qpre.len() {
                            assert(queue@[k1] == qpre[k1] && queue@[k2] == qpre[k2]);
                            assert(dpre[qpre[k1] as int] <= dpre[qpre[k2] as int]);
                            assert(qpre[k1] != e && qpre[k2] != e);
                        } else if k1 < qpre.len() {
                            assert(queue@[k1] == qpre[k1] && qpre[k1] != e);
                            assert(dpre[qpre[k1] as int] <= dc + 1);
                        }
                    }
                    assert forall|j: int| 0 <= j < queue@.len() implies dist@[
                    #[trigger] queue@[j] as int] <= dc + 1 by {
                        if j < qpre.len() {
                            assert(queue@[j] == qpre[j] && qpre[j] != e);
                            assert(dpre[qpre[j] as int] <= dc + 1);
                        }
                    }
                    assert forall|kk: int, b: int|
                        0 <= kk < head && #[trigger] m.spec_step(queue@[kk] as int, b) implies 0
                        <= b < n && visited@[b] && dist@[b] <= dist@[queue@[kk] as int] + 1 by {
                        assert(queue@[kk] == qpre[kk] && qpre[kk] != e);
                        assert(m.spec_step(qpre[kk] as int, b));
                        assert(0 <= b < n && vpre[b] && dpre[b] <= dpre[qpre[kk] as int] + 1);
                        if b != e {
                            assert(dist@[b] == dpre[b]);
                        }
                    }
                    assert forall|j: int|
                        0 <= j < k + 1 implies visited@[#[trigger] exits@[j] as int] && dist@[
                        exits@[j] as int] <= dc + 1 by {
                        if j < k {
                            assert(vpre[exits@[j] as int]);
                            if exits@[j] != e {
                                assert(dist@[exits@[j] as int] == dpre[exits@[j] as int]);
                            }
                        }
                    }
                }
            } else {
                proof {
                    let j0 = choose|j0: int| 0 <= j0 < queue@.len() && queue@[j0] as int == e as int;
                    assert(dist@[queue@[j0] as int] <= dc + 1);
                }
            }
            k = k + 1;
        }
        proof {
            // Every step out of the newly expanded cell leads to a
            // visited cell one layer at most further out.
            assert forall|b: int| #[trigger] m.spec_step(cur as int, b) implies 0 <= b < n
                && visited@[b] && dist@[b] <= dist@[queue@[head as int] as int] + 1 by {
                let j = choose|j: int| 0 <= j < exits@.len() && exits@[j] as int == b;
                assert(visited@[exits@[j] as int]);
                assert(dist@[exits@[j] as int] <= dc + 1);
            }
        }
        head = head + 1;
    }
    proof {
        // The queue is exhausted: the visited set is closed under
        // valid steps, and distances grow by at most one per step.
        assert forall|u: int, b: int|
            0 <= u < n && visited@[u] && #[trigger] m.spec_step(u, b) implies 0 <= b < n
            && visited@[b] && dist@[b] <= dist@[u] + 1 by {
            let k = choose|k: int| 0 <= k < queue@.len() && queue@[k] as int == u;
            assert(m.spec_step(queue@[k] as int, b));
        }
    }
    let goal_reached = visited[goal];
    if !goal_reached {
        proof {
            assert forall|q: Seq<usize>| !is_path(*m, q, start as int, goal as int) by {
                if is_path(*m, q, start as int, goal as int) {
                    lemma_path_stays_visited(*m, visited@, dist@, q, n as int);
                    assert(visited@[goal as int]);
                    assert(false);
                }
            }
        }
        return None;
    }
    // Walk the parent chain back from the goal; distances strictly
    // decrease toward the start, so the walk terminates there.
    let mut rev: Vec<usize> = vec![goal];
    let mut cur = goal;
    while cur != start
        invariant
            m.inv(),
            n == m.tiles@.len(),
            start < n,
            goal < n,
            cur < n,
            visited@.len() == n,
            parent@.len() == n,
            dist@.len() == n,
            visited@[start as int],
            dist@[start as int] == 0,
            visited@[cur as int],
            visited@[goal as int],
            forall|v: int|
                0 <= v < n && #[trigger] visited@[v] && v != start ==> parent@[v] < n
                    && visited@[parent@[v] as int] && m.spec_step(parent@[v] as int, v) && dist@[v]
                    == dist@[parent@[v] as int] + 1,
            rev@.len() >= 1,
            rev@[0] == goal,
            rev@[rev@.len() - 1] == cur,
            rev@.len() == dist@[goal as int] - dist@[cur as int] + 1,
            forall|i: int|
                #![trigger rev@[i]]
                0 <= i < rev@.len() - 1 ==> m.spec_step(rev@[i + 1] as int, rev@[i] as int),
        decreases dist@[cur as int],
    {
        let p = parent[cur];
        rev.push(p);
        cur = p;
    }
    let mut path: Vec<usize> = Vec::new();
    let mut i: usize = rev.len();
    while i > 0
        invariant
            rev@.len() >= 1,
            i <= rev@.len(),
            path@.len() == rev@.len() - i,
            forall|j: int|
                0 <= j < path@.len() ==> #[trigger] path@[j] == rev@[rev@.len() - 1 - j],
        decreases i,
    {
        i = i - 1;
        path.push(rev[i]);
    }
    proof {
        assert(path@.len() == rev@.len());
        assert(path@[0] == rev@[rev@.len() - 1]);
        assert(path@[path@.len() - 1] == rev@[0]);
        assert forall|j: int|
            #![trigger path@[j]]
            0 <= j < path@.len() - 1 implies m.spec_step(path@[j] as int, path@[j + 1] as int) by {
            let l = rev@.len();
            assert(path@[j] == rev@[l - 1 - j]);
            assert(path@[j + 1] == rev@[l - 1 - (j + 1)]);
            assert(m.spec_step(rev@[(l - 2 - j) + 1] as int, rev@[l - 2 - j] as int));
        }
        assert(is_path(*m, path@, start as int, goal as int));
        assert(path@.len() == dist@[goal as int] + 1);
        // No valid path is shorter: along any one, the recorded
        // distance rises by at most one per step from zero.
        assert forall|q: Seq<usize>| #[trigger] is_path(*m, q, start as int, goal as int) implies
            q.len() >= path@.len() by {
            lemma_path_stays_visited(*m, visited@, dist@, q, n as int);
            assert(dist@[goal as int] <= dist@[start as int] + q.len() - 1);
        }
    }
    Some(path)
}

} // verus!
