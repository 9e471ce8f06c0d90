//! Reachability in a graph whose vertices are indices and whose edges are
//! given as adjacency lists.
use vstd::prelude::*;

verus! {

/// `y` is a successor of `x`.
pub open spec fn edge(adj: Seq<Seq<usize>>, x: int, y: int) -> bool {
    0 <= x < adj.len() && 0 <= y < adj.len() && adj[x].contains(y as usize)
}

/// The successors of the vertices of `s`.
pub open spec fn successors(adj: Seq<Seq<usize>>, s: Set<int>) -> Set<int> {
    Set::new(|y: int| exists|x: int| s.contains(x) && #[trigger] edge(adj, x, y))
}

/// The vertices at most `k` steps away from `start`.
pub open spec fn within(adj: Seq<Seq<usize>>, start: Set<int>, k: nat) -> Set<int>
    decreases k,
{
    if k == 0 {
        start
    } else {
        let prev = within(adj, start, (k - 1) as nat);
        prev.union(successors(adj, prev))
    }
}

/// The vertices some number of steps away from `start`.
pub open spec fn reachable(adj: Seq<Seq<usize>>, start: Set<int>) -> Set<int> {
    Set::new(|y: int| exists|k: nat| #[trigger] within(adj, start, k).contains(y))
}

/// Every successor list names a vertex.
pub open spec fn well_formed(adj: Seq<Seq<usize>>) -> bool {
    forall|x: int, k: int| 0 <= x < adj.len() && 0 <= k < adj[x].len() ==> (#[trigger] adj[x][k]) < adj.len()
}

/// The model of adjacency lists.
pub open spec fn adj_view(adj: Seq<Vec<usize>>) -> Seq<Seq<usize>> {
    adj.map_values(|l: Vec<usize>| l@)
}

/// The set of vertices marked in `marks`.
pub open spec fn marked(marks: Seq<bool>) -> Set<int> {
    Set::new(|i: int| 0 <= i < marks.len() && marks[i])
}

/// The vertices of `start` as a set.
pub open spec fn start_set(start: Seq<usize>) -> Set<int> {
    Set::new(|i: int| exists|k: int| 0 <= k < start.len() && start[k] as int == i)
}

/// The successors of the first `fi` vertices of a list.
pub open spec fn succ_prefix(g: Seq<Seq<usize>>, fr: Seq<usize>, fi: int) -> Set<int> {
    Set::new(|y: int| exists|j: int| 0 <= j < fi && #[trigger] edge(g, fr[j] as int, y))
}

/// The first `ki` entries of a list, as a set.
pub open spec fn list_prefix(l: Seq<usize>, ki: int) -> Set<int> {
    Set::new(|y: int| exists|k: int| 0 <= k < ki && #[trigger] l[k] as int == y)
}

/// The number of marks set.
pub open spec fn count_true(s: Seq<bool>) -> nat
    decreases s.len(),
{
    if s.len() == 0 {
        0
    } else {
        count_true(s.drop_last()) + if s.last() { 1nat } else { 0nat }
    }
}

pub proof fn lemma_count_bound(s: Seq<bool>)
    ensures
        count_true(s) <= s.len(),
    decreases s.len(),
{
    if s.len() > 0 {
        lemma_count_bound(s.drop_last());
    }
}

pub proof fn lemma_count_set(s: Seq<bool>, i: int)
    requires
        0 <= i < s.len(),
        !s[i],
    ensures
        count_true(s.update(i, true)) == count_true(s) + 1,
    decreases s.len(),
{
    if i == s.len() - 1 {
        assert(s.update(i, true).drop_last() =~= s.drop_last());
    } else {
        lemma_count_set(s.drop_last(), i);
        assert(s.update(i, true).drop_last() =~= s.drop_last().update(i, true));
    }
}

/// Once a set contains its successors, further steps add nothing.
pub proof fn lemma_closed_within(adj: Seq<Seq<usize>>, start: Set<int>, k: nat, j: nat)
    requires
        k <= j,
        successors(adj, within(adj, start, k)).subset_of(within(adj, start, k)),
    ensures
        within(adj, start, j) == within(adj, start, k),
    decreases j - k,
{
    if j > k {
        lemma_closed_within(adj, start, k, (j - 1) as nat);
        assert(within(adj, start, j) =~= within(adj, start, k));
    }
}

/// A set that holds the start and its own successors holds every vertex
/// that can be reached.
pub proof fn lemma_closed_contains(adj: Seq<Seq<usize>>, start: Set<int>, a: Set<int>, k: nat)
    requires
        start.subset_of(a),
        successors(adj, a).subset_of(a),
    ensures
        within(adj, start, k).subset_of(a),
    decreases k,
{
    if k > 0 {
        lemma_closed_contains(adj, start, a, (k - 1) as nat);
        let prev = within(adj, start, (k - 1) as nat);
        assert forall|y: int| successors(adj, prev).contains(y) implies a.contains(y) by {
            let x = choose|x: int| prev.contains(x) && #[trigger] edge(adj, x, y);
            assert(successors(adj, a).contains(y));
        }
    }
}

/// Each step keeps what earlier steps reached.
pub proof fn lemma_within_grows(adj: Seq<Seq<usize>>, start: Set<int>, k: nat, j: nat)
    requires
        k <= j,
    ensures
        within(adj, start, k).subset_of(within(adj, start, j)),
    decreases j - k,
{
    if j > k {
        lemma_within_grows(adj, start, k, (j - 1) as nat);
    }
}

/// Vertices reached from `start`, by breadth-first levels: with a positive
/// `limit`, those at most `limit` steps away; with `limit == 0`, all that
/// can be reached.
pub fn explore(adj: &Vec<Vec<usize>>, start: &Vec<usize>, limit: u32) -> (visited: Vec<bool>)
    requires
        well_formed(adj_view(adj@)),
        forall|k: int| 0 <= k < start@.len() ==> (#[trigger] start@[k]) < adj@.len(),
    ensures
        visited@.len() == adj@.len(),
        limit > 0 ==> marked(visited@) == within(adj_view(adj@), start_set(start@), limit as nat),
        limit == 0 ==> marked(visited@) == reachable(adj_view(adj@), start_set(start@)),
{
    let ghost g = adj_view(adj@);
    let ghost st = start_set(start@);
    let n = adj.len();
    let mut visited: Vec<bool> = Vec::new();
    let mut i: usize = 0;
    while i < n
        invariant
            i <= n,
            n == adj@.len(),
            visited@.len() == i,
            forall|k: int| 0 <= k < i ==> !visited@[k],
        decreases n - i,
    {
        visited.push(false);
        i += 1;
    }
    let mut frontier: Vec<usize> = Vec::new();
    let mut s: usize = 0;
    while s < start.len()
        invariant
            s <= start@.len(),
            n == adj@.len(),
            visited@.len() == n,
            forall|k: int| 0 <= k < start@.len() ==> (#[trigger] start@[k]) < adj@.len(),
            marked(visited@) == Set::new(|i: int| exists|k: int| 0 <= k < s && start@[k] as int == i),
            forall|k: int| 0 <= k < frontier@.len() ==> (#[trigger] frontier@[k]) < n && visited@[frontier@[k] as int],
            forall|i: int| 0 <= i < n && visited@[i] ==> frontier@.contains(i as usize),
            frontier@.len() <= count_true(visited@),
        decreases start@.len() - s,
    {
        let v = start[s];
        let ghost m_old = visited@;
        let ghost f_old = frontier@;
        if !visited[v] {
            proof { lemma_count_set(visited@, v as int); }
            visited.set(v, true);
            frontier.push(v);
            assert forall|i: int| 0 <= i < n && visited@[i] implies frontier@.contains(i as usize) by {
                if i != v as int {
                    assert(m_old[i]);
                    let k = choose|k: int| 0 <= k < f_old.len() && f_old[k] == i as usize;
                    assert(frontier@[k] == i as usize);
                } else {
                    assert(frontier@[frontier@.len() - 1] == v);
                }
            }
        }
        s += 1;
        assert(marked(visited@) =~= Set::new(|i: int| exists|k: int| 0 <= k < s && start@[k] as int == i)) by {
            assert forall|i: int| marked(visited@).contains(i) implies exists|k: int| 0 <= k < s && start@[k] as int == i by {
                if i == v as int {
                    assert(start@[s - 1] as int == i);
                } else {
                    assert(marked(m_old).contains(i));
                }
            }
            assert forall|i: int| (exists|k: int| 0 <= k < s && start@[k] as int == i) implies marked(visited@).contains(i) by {
                let k = choose|k: int| 0 <= k < s && start@[k] as int == i;
                if k < s - 1 {
                    assert(marked(m_old).contains(i));
                }
            }
        }
    }
    proof { lemma_count_bound(visited@); }
    assert(marked(visited@) =~= within(g, st, 0));
    let mut level: u64 = 0;
    while frontier.len() > 0 && (limit == 0 || level < limit as u64)
        invariant
            n == adj@.len(),
            g == adj_view(adj@),
            well_formed(g),
            g.len() == n,
            visited@.len() == n,
            limit > 0 ==> level <= limit,
            marked(visited@) == within(g, st, level as nat),
            forall|k: int| 0 <= k < frontier@.len() ==> (#[trigger] frontier@[k]) < n && visited@[frontier@[k] as int],
            forall|x: int| #![trigger marked(visited@).contains(x)]
                marked(visited@).contains(x) && !frontier@.contains(x as usize)
                ==> forall|y: int| #[trigger] edge(g, x, y) ==> marked(visited@).contains(y),
            count_true(visited@) <= n,
            level <= count_true(visited@),
            frontier@.len() > 0 ==> level < count_true(visited@),
        decreases 2 * (n - count_true(visited@)) + (if frontier@.len() > 0 { 1int } else { 0int }),
    {
        let ghost vis0 = marked(visited@);
        let ghost fr = frontier@;
        let ghost c0 = count_true(visited@);
        let mut next: Vec<usize> = Vec::new();
        let mut fi: usize = 0;
        while fi < frontier.len()
            invariant
                n == adj@.len(),
                g == adj_view(adj@),
                well_formed(g),
                g.len() == n,
                visited@.len() == n,
                frontier@ == fr,
                fi <= fr.len(),
                forall|k: int| 0 <= k < fr.len() ==> (#[trigger] fr[k]) < n && vis0.contains(fr[k] as int),
                marked(visited@) == vis0.union(succ_prefix(g, fr, fi as int)),
                forall|k: int| 0 <= k < next@.len() ==> (#[trigger] next@[k]) < n && marked(visited@).contains(next@[k] as int),
                forall|y: int| marked(visited@).contains(y) && !vis0.contains(y) ==> next@.contains(y as usize),
                count_true(visited@) >= c0,
                next@.len() > 0 ==> count_true(visited@) > c0,
            decreases fr.len() - fi,
        {
            let x = frontier[fi];
            let ghost before = marked(visited@);
            let mut ki: usize = 0;
            assert(g[x as int] == adj@[x as int]@);
            while ki < adj[x].len()
                invariant
                    n == adj@.len(),
                    g == adj_view(adj@),
                    well_formed(g),
                    g.len() == n,
                    x < n,
                    visited@.len() == n,
                    ki <= adj@[x as int]@.len(),
                    marked(visited@) == before.union(list_prefix(adj@[x as int]@, ki as int)),
                    forall|k: int| 0 <= k < next@.len() ==> (#[trigger] next@[k]) < n && marked(visited@).contains(next@[k] as int),
                    forall|y: int| marked(visited@).contains(y) && !vis0.contains(y) ==> next@.contains(y as usize),
                    vis0.subset_of(before),
                    count_true(visited@) >= c0,
                    next@.len() > 0 ==> count_true(visited@) > c0,
                decreases adj@[x as int]@.len() - ki,
            {
                let y = adj[x][ki];
                assert(g[x as int][ki as int] == y);
                assert(y < n);
                let ghost m_old = visited@;
                let ghost n_old = next@;
                if !visited[y] {
                    proof { lemma_count_set(visited@, y as int); }
                    visited.set(y, true);
                    next.push(y);
                    assert forall|z: int| marked(visited@).contains(z) && !vis0.contains(z) implies next@.contains(z as usize) by {
                        if z == y as int {
                            assert(next@[next@.len() - 1] == y);
                        } else {
                            assert(marked(m_old).contains(z));
                            let k = choose|k: int| 0 <= k < n_old.len() && n_old[k] == z as usize;
                            assert(next@[k] == z as usize);
                        }
                    }
                }
                ki += 1;
                assert(marked(visited@) =~= before.union(list_prefix(adj@[x as int]@, ki as int))) by {
                    assert forall|z: int| marked(visited@).contains(z) implies before.union(list_prefix(adj@[x as int]@, ki as int)).contains(z) by {
                        if z == y as int {
                            assert(adj@[x as int]@[ki - 1] as int == z);
                        } else {
                            assert(marked(m_old).contains(z));
                        }
                    }
                    assert forall|z: int| before.union(list_prefix(adj@[x as int]@, ki as int)).contains(z) implies marked(visited@).contains(z) by {
                        if !before.contains(z) {
                            let k = choose|k: int| 0 <= k < ki && #[trigger] adj@[x as int]@[k] as int == z;
                            if k < ki - 1 {
                                assert(list_prefix(adj@[x as int]@, ki - 1).contains(z));
                                assert(marked(m_old).contains(z));
                            } else {
                                assert(visited@[y as int]);
                            }
                        } else {
                            assert(marked(m_old).contains(z));
                        }
                    }
                }
            }
            fi += 1;
            assert(marked(visited@) =~= vis0.union(succ_prefix(g, fr, fi as int))) by {
                assert(adj@[x as int]@.subrange(0, adj@[x as int]@.len() as int) =~= adj@[x as int]@);
                assert forall|z: int| marked(visited@).contains(z) implies vis0.union(succ_prefix(g, fr, fi as int)).contains(z) by {
                    if before.contains(z) {
                        if !vis0.contains(z) {
                            let j = choose|j: int| 0 <= j < fi - 1 && #[trigger] edge(g, fr[j] as int, z);
                            assert(edge(g, fr[j] as int, z));
                        }
                    } else {
                        let k = choose|k: int| 0 <= k < adj@[x as int]@.len() && #[trigger] adj@[x as int]@[k] as int == z;
                        assert(g[x as int][k] as int == z);
                        assert(g[x as int].contains(z as usize));
                        assert(edge(g, fr[fi - 1] as int, z));
                    }
                }
                assert forall|z: int| vis0.union(succ_prefix(g, fr, fi as int)).contains(z) implies marked(visited@).contains(z) by {
                    if !vis0.contains(z) {
                        let j = choose|j: int| 0 <= j < fi && #[trigger] edge(g, fr[j] as int, z);
                        if j < fi - 1 {
                            assert(succ_prefix(g, fr, fi - 1).contains(z));
                        } else {
                            assert(adj@[x as int]@.contains(z as usize));
                            let k = choose|k: int| 0 <= k < adj@[x as int]@.len() && adj@[x as int]@[k] == z as usize;
                            assert(adj@[x as int]@[k] as int == z);
                            assert(list_prefix(adj@[x as int]@, adj@[x as int]@.len() as int).contains(z));
                        }
                    }
                }
            }
        }
        proof {
            assert(successors(g, vis0) =~= successors(g, vis0).intersect(marked(visited@))) by {
                assert forall|y: int| successors(g, vis0).contains(y) implies marked(visited@).contains(y) by {
                    let x = choose|x: int| vis0.contains(x) && #[trigger] edge(g, x, y);
                    if fr.contains(x as usize) {
                        let j = choose|j: int| 0 <= j < fr.len() && fr[j] == x as usize;
                        assert(edge(g, fr[j] as int, y));
                        assert(succ_prefix(g, fr, fr.len() as int).contains(y));
                    } else {
                        assert(marked(visited@) == vis0.union(succ_prefix(g, fr, fr.len() as int)));
                    }
                }
            }
            assert(marked(visited@) =~= within(g, st, (level + 1) as nat)) by {
                assert forall|y: int| marked(visited@).contains(y) implies within(g, st, (level + 1) as nat).contains(y) by {
                    if !vis0.contains(y) {
                        let j = choose|j: int| 0 <= j < fr.len() && #[trigger] edge(g, fr[j] as int, y);
                        assert(successors(g, vis0).contains(y));
                    }
                }
            }
        }
        frontier = next;
        level += 1;
        proof {
            lemma_count_bound(visited@);
        }
    }
    proof {
        if limit > 0 && level == limit as u64 {
        } else {
            assert(frontier@.len() == 0);
            assert(successors(g, within(g, st, level as nat)).subset_of(within(g, st, level as nat)));
            if limit > 0 {
                lemma_closed_within(g, st, level as nat, limit as nat);
            } else {
                assert forall|y: int| reachable(g, st).contains(y) implies marked(visited@).contains(y) by {
                    let k = choose|k: nat| #[trigger] within(g, st, k).contains(y);
                    if k <= level {
                        lemma_within_grows(g, st, k, level as nat);
                    } else {
                        lemma_closed_within(g, st, level as nat, k);
                    }
                }
                assert forall|y: int| marked(visited@).contains(y) implies reachable(g, st).contains(y) by {
                    assert(within(g, st, level as nat).contains(y));
                }
                assert(marked(visited@) =~= reachable(g, st));
            }
        }
    }
    visited
}

} // verus!
