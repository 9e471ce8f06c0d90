//! The node-level lineage graph of a dbt project: which nodes are connected
//! to a given node, upstream or downstream, within a number of hops.
use vstd::prelude::*;

use crate::graph::{adj_view, edge, explore, marked, reachable, start_set, well_formed, within};
pub use crate::json::vview;
use crate::json::{
    Json, JsonV, json_view, lemma_array_view, group_json_view, at_v, as_str_v, str_at, clone_json,
    array_at, array_of, as_array_v, at, entry, object_of, str_array_v, string_array, u64_v,
};
use crate::text::owned;
use crate::text::{eq_ascii_nocase};

verus! {

broadcast use group_json_view;

// ---------------------------------------------------------------------------
// Model
// ---------------------------------------------------------------------------

/// `node["uniqueId"].as_str()`.
pub open spec fn uid_of(n: JsonV) -> Option<Seq<char>> {
    as_str_v(at_v(n, "uniqueId"@))
}

/// A node that takes part in the graph: it has a unique id and a resource
/// type, and is not a macro.
pub open spec fn is_graph_node(n: JsonV) -> bool {
    &&& uid_of(n) is Some
    &&& as_str_v(at_v(n, "resourceType"@)) is Some
    &&& !eq_ascii_nocase(as_str_v(at_v(n, "resourceType"@))->0, "macro"@)
}

/// Which entries of a list take part in a graph built from it.
pub enum IndexKind {
    /// Lineage nodes: those with an id and a resource type, except macros.
    Nodes,
    /// Columns: those with an id.
    Columns,
}

/// Whether an entry takes part in the graph of the given kind.
pub open spec fn member(kind: IndexKind, n: JsonV) -> bool {
    match kind {
        IndexKind::Nodes => is_graph_node(n),
        IndexKind::Columns => uid_of(n) is Some,
    }
}

/// `v` is an array that holds the string `s`.
pub open spec fn names_in(v: JsonV, s: Seq<char>) -> bool {
    match v {
        JsonV::Array(a) => a.contains(JsonV::Str(s)),
        _ => false,
    }
}

/// The position of the last graph node among the first `n` with id `id`,
/// or -1: later nodes with the same id take the place of earlier ones.
pub open spec fn last_of(kind: IndexKind, nodes: Seq<JsonV>, id: Seq<char>, n: int) -> int
    decreases n,
{
    if n <= 0 {
        -1
    } else if member(kind, nodes[n - 1]) && uid_of(nodes[n - 1]) == Some(id) {
        n - 1
    } else {
        last_of(kind, nodes, id, n - 1)
    }
}

/// The position of the node that stands for `id` among the first `n`.
pub open spec fn last_node(nodes: Seq<JsonV>, id: Seq<char>, n: int) -> int {
    last_of(IndexKind::Nodes, nodes, id, n)
}

/// `id` names a node of the graph.
pub open spec fn in_graph(nodes: Seq<JsonV>, id: Seq<char>) -> bool {
    last_node(nodes, id, nodes.len() as int) >= 0
}

/// The node that the graph holds for `id` lists `parent` among its parents.
pub open spec fn has_parent(nodes: Seq<JsonV>, id: Seq<char>, parent: Seq<char>) -> bool {
    names_in(at_v(nodes[last_node(nodes, id, nodes.len() as int)], "parentIds"@), parent)
}

/// One hop in the graph, in either direction.
pub open spec fn adjacent(nodes: Seq<JsonV>, x: Seq<char>, y: Seq<char>) -> bool {
    &&& in_graph(nodes, x)
    &&& in_graph(nodes, y)
    &&& (has_parent(nodes, y, x) || has_parent(nodes, x, y))
}

/// The ids at most `k` hops away from `target`.
pub open spec fn hops(nodes: Seq<JsonV>, target: Seq<char>, k: nat) -> Set<Seq<char>>
    decreases k,
{
    if k == 0 {
        set![target]
    } else {
        let prev = hops(nodes, target, (k - 1) as nat);
        prev.union(Set::new(|y: Seq<char>| exists|x: Seq<char>| prev.contains(x) && #[trigger] adjacent(nodes, x, y)))
    }
}

/// The ids connected to `target`: within `depth` hops, or at any distance
/// when `depth` is zero; nothing when `target` is not a node of the graph.
pub open spec fn connected(nodes: Seq<JsonV>, target: Seq<char>, depth: nat) -> Set<Seq<char>> {
    if !in_graph(nodes, target) {
        Set::empty()
    } else if depth > 0 {
        hops(nodes, target, depth)
    } else {
        Set::new(|y: Seq<char>| exists|k: nat| #[trigger] hops(nodes, target, k).contains(y))
    }
}

/// A node is kept when its id is connected to the target.
pub open spec fn keeps(nodes: Seq<JsonV>, target: Seq<char>, depth: nat, n: JsonV) -> bool {
    uid_of(n) is Some && connected(nodes, target, depth).contains(uid_of(n)->0)
}

// ---------------------------------------------------------------------------
// Reading nodes
// ---------------------------------------------------------------------------

/// `node["uniqueId"].as_str()`.
pub fn node_uid<'a>(n: &'a Json) -> (r: Option<&'a str>)
    ensures
        r matches Some(s) ==> uid_of(n@) == Some(s@),
        r is None ==> uid_of(n@) is None,
{
    str_at(n, "uniqueId")
}

/// Whether a node takes part in the graph, and its id if so.
pub fn graph_node_uid<'a>(n: &'a Json) -> (r: Option<&'a str>)
    ensures
        r matches Some(s) ==> is_graph_node(n@) && uid_of(n@) == Some(s@),
        r is None ==> !is_graph_node(n@),
{
    let uid = match node_uid(n) {
        Some(u) => u,
        None => return None,
    };
    let rt = match str_at(n, "resourceType") {
        Some(t) => t,
        None => return None,
    };
    let rtc = crate::text::chars_of(rt);
    let m = crate::text::chars_of("macro");
    if crate::text::eq_ignore_ascii_case(rtc.as_slice(), m.as_slice()) {
        None
    } else {
        Some(uid)
    }
}

/// Whether an entry takes part in a graph of the given kind, and its id if so.
pub fn member_uid<'a>(kind: &IndexKind, n: &'a Json) -> (r: Option<&'a str>)
    ensures
        r matches Some(s) ==> member(*kind, n@) && uid_of(n@) == Some(s@),
        r is None ==> !member(*kind, n@),
{
    match kind {
        IndexKind::Nodes => graph_node_uid(n),
        IndexKind::Columns => node_uid(n),
    }
}

/// `v` is an array that holds the string `s`.
pub fn json_names(v: Option<&Json>, s: &str) -> (r: bool)
    ensures
        r == names_in(match v { Some(x) => x@, None => JsonV::Null }, s@),
{
    match v {
        Some(Json::Array(a)) => {
            let mut i: usize = 0;
            while i < a.len()
                invariant
                    i <= a@.len(),
                    v is Some && *v.unwrap() == Json::Array(*a),
                    forall|k: int| 0 <= k < i ==> (#[trigger] a@[k])@ != JsonV::Str(s@),
                decreases a@.len() - i,
            {
                if let Some(t) = a[i].as_str() {
                    if crate::text::str_eq(t, s) {
                        proof {
                            lemma_array_view(*a);
                            assert(a@[i as int]@ == JsonV::Str(s@));
                            assert(json_view(Json::Array(*a))->Array_0[i as int] == JsonV::Str(s@));
                            assert(json_view(Json::Array(*a))->Array_0.contains(JsonV::Str(s@)));
                        }
                        return true;
                    }
                }
                i += 1;
            }
            proof {
                lemma_array_view(*a);
                let av = json_view(Json::Array(*a))->Array_0;
                assert forall|k: int| 0 <= k < av.len() implies av[k] != JsonV::Str(s@) by {
                    assert(av[k] == a@[k]@);
                }
            }
            false
        },
        _ => false,
    }
}

/// The position of `s` in a list of distinct texts.
pub fn index_of(ids: &Vec<String>, s: &str) -> (r: Option<usize>)
    ensures
        r matches Some(i) ==> i < ids@.len() && ids@[i as int]@ == s@,
        r is None ==> forall|i: int| 0 <= i < ids@.len() ==> (#[trigger] ids@[i])@ != s@,
{
    let mut i: usize = 0;
    while i < ids.len()
        invariant
            i <= ids@.len(),
            forall|k: int| 0 <= k < i ==> (#[trigger] ids@[k])@ != s@,
        decreases ids@.len() - i,
    {
        if crate::text::str_eq(ids[i].as_str(), s) {
            return Some(i);
        }
        i += 1;
    }
    None
}

/// The ids of the graph, each once, with the position of the node that
/// stands for each.
pub open spec fn index_ok(kind: IndexKind, nodes: Seq<JsonV>, ids: Seq<String>, at: Seq<usize>, n: int) -> bool {
    &&& ids.len() == at.len()
    &&& forall|i: int, j: int| 0 <= i < j < ids.len() ==> (#[trigger] ids[i])@ != (#[trigger] ids[j])@
    &&& forall|i: int| 0 <= i < ids.len() ==> (#[trigger] at[i]) as int == last_of(kind, nodes, ids[i]@, n)
    &&& forall|i: int| 0 <= i < ids.len() ==> last_of(kind, nodes, (#[trigger] ids[i])@, n) >= 0
    &&& forall|id: Seq<char>| #[trigger] last_of(kind, nodes, id, n) >= 0 ==> exists|i: int| 0 <= i < ids.len() && (#[trigger] ids[i])@ == id
}

pub proof fn lemma_last_range(kind: IndexKind, nodes: Seq<JsonV>, id: Seq<char>, n: int)
    requires
        0 <= n <= nodes.len(),
    ensures
        -1 <= last_of(kind, nodes, id, n) < n,
        last_of(kind, nodes, id, n) >= 0 ==> member(kind, nodes[last_of(kind, nodes, id, n)])
            && uid_of(nodes[last_of(kind, nodes, id, n)]) == Some(id),
    decreases n,
{
    if n > 0 {
        lemma_last_range(kind, nodes, id, n - 1);
    }
}

/// Lists the ids of the graph and the node that stands for each.
pub fn build_index(kind: &IndexKind, nodes: &Vec<Json>) -> (r: (Vec<String>, Vec<usize>))
    ensures
        index_ok(*kind, vview(nodes@), r.0@, r.1@, nodes@.len() as int),
        r.0@.len() <= nodes@.len(),
{
    let ghost nv = vview(nodes@);
    let mut ids: Vec<String> = Vec::new();
    let mut at: Vec<usize> = Vec::new();
    let mut p: usize = 0;
    while p < nodes.len()
        invariant
            p <= nodes@.len(),
            nv == vview(nodes@),
            index_ok(*kind, nv, ids@, at@, p as int),
            ids@.len() <= p,
        decreases nodes@.len() - p,
    {
        assert(nv[p as int] == nodes@[p as int]@);
        let ghost ids_old = ids@;
        let ghost at_old = at@;
        match member_uid(kind, &nodes[p]) {
            Some(uid) => {
                match index_of(&ids, uid) {
                    Some(j) => {
                        at.set(j, p);
                        proof {
                            assert(index_ok(*kind, nv, ids@, at@, p + 1)) by {
                                assert forall|id: Seq<char>| #[trigger] last_of(*kind, nv, id, p + 1) >= 0 implies exists|i: int| 0 <= i < ids@.len() && (#[trigger] ids@[i])@ == id by {
                                    if id == uid@ {
                                        assert(ids@[j as int]@ == id);
                                    } else {
                                        assert(last_of(*kind, nv, id, p as int) >= 0);
                                    }
                                }
                            }
                        }
                    },
                    None => {
                        ids.push(crate::text::owned(uid));
                        at.push(p);
                        proof {
                            assert(index_ok(*kind, nv, ids@, at@, p + 1)) by {
                                assert forall|id: Seq<char>| #[trigger] last_of(*kind, nv, id, p + 1) >= 0 implies exists|i: int| 0 <= i < ids@.len() && (#[trigger] ids@[i])@ == id by {
                                    if id == uid@ {
                                        assert(ids@[ids@.len() - 1]@ == id);
                                    } else {
                                        assert(last_of(*kind, nv, id, p as int) >= 0);
                                        let i = choose|i: int| 0 <= i < ids_old.len() && (#[trigger] ids_old[i])@ == id;
                                        assert(ids@[i] == ids_old[i]);
                                    }
                                }
                                assert forall|i: int| 0 <= i < ids@.len() implies last_of(*kind, nv, (#[trigger] ids@[i])@, p + 1) >= 0 by {
                                    if i < ids_old.len() {
                                        assert(ids@[i] == ids_old[i]);
                                    }
                                }
                            }
                        }
                    },
                }
            },
            None => {
                proof {
                    assert(index_ok(*kind, nv, ids@, at@, p + 1)) by {
                        assert forall|id: Seq<char>| #[trigger] last_of(*kind, nv, id, p + 1) >= 0 implies exists|i: int| 0 <= i < ids@.len() && (#[trigger] ids@[i])@ == id by {
                            assert(last_of(*kind, nv, id, p as int) >= 0);
                        }
                    }
                }
            },
        }
        p += 1;
    }
    (ids, at)
}

// ---------------------------------------------------------------------------
// The lineage filter
// ---------------------------------------------------------------------------

/// The predicate that decides which nodes the lineage filter keeps.
pub open spec fn keeps_pred(nodes: Seq<JsonV>, target: Seq<char>, depth: nat) -> spec_fn(JsonV) -> bool {
    |n: JsonV| keeps(nodes, target, depth, n)
}

/// The adjacency lists of the graph over positions in `ids`.
pub open spec fn adj_matches(nv: Seq<JsonV>, ids: Seq<String>, g: Seq<Seq<usize>>) -> bool {
    &&& g.len() == ids.len()
    &&& well_formed(g)
    &&& forall|i: int, j: int| 0 <= i < ids.len() && 0 <= j < ids.len() ==>
        (#[trigger] edge(g, i, j) <==> adjacent(nv, ids[i]@, ids[j]@))
}

proof fn lemma_start_single(t: usize)
    ensures
        start_set(seq![t]) == set![t as int],
{
    assert(start_set(seq![t]) =~= set![t as int]) by {
        assert(seq![t][0] == t);
    }
}

proof fn lemma_levels_match(nv: Seq<JsonV>, ids: Seq<String>, at: Seq<usize>, g: Seq<Seq<usize>>, t: int, k: nat)
    requires
        index_ok(IndexKind::Nodes, nv, ids, at, nv.len() as int),
        adj_matches(nv, ids, g),
        0 <= t < ids.len(),
    ensures
        forall|j: int| 0 <= j < ids.len() ==> (within(g, set![t], k).contains(j) <==> #[trigger] hops(nv, ids[t]@, k).contains(ids[j]@)),
        forall|id: Seq<char>| #[trigger] hops(nv, ids[t]@, k).contains(id) ==> in_graph(nv, id),
        forall|j: int| #[trigger] within(g, set![t], k).contains(j) ==> 0 <= j < ids.len(),
    decreases k,
{
    let target = ids[t]@;
    if k == 0 {
        assert(in_graph(nv, target));
    } else {
        let k1 = (k - 1) as nat;
        lemma_levels_match(nv, ids, at, g, t, k1);
        let wp = within(g, set![t], k1);
        let hp = hops(nv, target, k1);
        assert forall|j: int| 0 <= j < ids.len() implies (within(g, set![t], k).contains(j) <==> #[trigger] hops(nv, target, k).contains(ids[j]@)) by {
            if within(g, set![t], k).contains(j) && !wp.contains(j) {
                let i = choose|i: int| wp.contains(i) && #[trigger] edge(g, i, j);
                assert(hp.contains(ids[i]@));
                assert(adjacent(nv, ids[i]@, ids[j]@));
            }
            if hops(nv, target, k).contains(ids[j]@) && !hp.contains(ids[j]@) {
                let x = choose|x: Seq<char>| hp.contains(x) && #[trigger] adjacent(nv, x, ids[j]@);
                assert(last_node(nv, x, nv.len() as int) >= 0);
                let i = choose|i: int| 0 <= i < ids.len() && (#[trigger] ids[i])@ == x;
                assert(wp.contains(i));
                assert(edge(g, i, j));
            }
        }
        assert forall|id: Seq<char>| #[trigger] hops(nv, target, k).contains(id) implies in_graph(nv, id) by {
            if !hp.contains(id) {
                let x = choose|x: Seq<char>| hp.contains(x) && #[trigger] adjacent(nv, x, id);
            }
        }
        assert forall|j: int| #[trigger] within(g, set![t], k).contains(j) implies 0 <= j < ids.len() by {
            if !wp.contains(j) {
                let i = choose|i: int| wp.contains(i) && #[trigger] edge(g, i, j);
            }
        }
    }
}

/// Whether the graph holds a link between the nodes behind positions `i`
/// and `j`.
fn linked(nodes: &Vec<Json>, ids: &Vec<String>, at: &Vec<usize>, i: usize, j: usize) -> (r: bool)
    requires
        index_ok(IndexKind::Nodes, vview(nodes@), ids@, at@, nodes@.len() as int),
        i < ids@.len(),
        j < ids@.len(),
    ensures
        r == adjacent(vview(nodes@), ids@[i as int]@, ids@[j as int]@),
{
    let ghost nv = vview(nodes@);
    proof {
        lemma_last_range(IndexKind::Nodes, nv, ids@[i as int]@, nv.len() as int);
        lemma_last_range(IndexKind::Nodes, nv, ids@[j as int]@, nv.len() as int);
    }
    let nj = &nodes[at[j]];
    let ni = &nodes[at[i]];
    assert(nv[at@[j as int] as int] == nj@);
    assert(nv[at@[i as int] as int] == ni@);
    json_names(nj.get("parentIds"), ids[i].as_str()) || json_names(ni.get("parentIds"), ids[j].as_str())
}

/// The nodes connected to `target_id`, in the order they are given: a breadth
/// search over parent links in both directions, skipping macros, going at
/// most `depth` hops (no limit when `depth` is zero).
pub fn filter_connected_nodes(nodes: &Vec<Json>, target_id: &str, depth: u32) -> (r: Vec<Json>)
    ensures
        vview(r@) == vview(nodes@).filter(keeps_pred(vview(nodes@), target_id@, depth as nat)),
{
    let ghost nv = vview(nodes@);
    let ghost pred = keeps_pred(nv, target_id@, depth as nat);
    let (ids, at) = build_index(&IndexKind::Nodes, nodes);
    let n = ids.len();
    let found = index_of(&ids, target_id);
    // Adjacency between positions, in both directions.
    let mut adj: Vec<Vec<usize>> = Vec::new();
    if found.is_some() {
        let mut i: usize = 0;
        while i < n
            invariant
                n == ids@.len(),
                i <= n,
                index_ok(IndexKind::Nodes, nv, ids@, at@, nodes@.len() as int),
                nv == vview(nodes@),
                adj@.len() == i,
                forall|x: int, k: int| 0 <= x < i && 0 <= k < adj@[x]@.len() ==> (#[trigger] adj@[x]@[k]) < n,
                forall|x: int, y: int| 0 <= x < i && 0 <= y < n ==>
                    (#[trigger] adj@[x]@.contains(y as usize) <==> adjacent(nv, ids@[x]@, ids@[y]@)),
            decreases n - i,
        {
            let mut row: Vec<usize> = Vec::new();
            let mut j: usize = 0;
            while j < n
                invariant
                    n == ids@.len(),
                    i < n,
                    j <= n,
                    index_ok(IndexKind::Nodes, nv, ids@, at@, nodes@.len() as int),
                    nv == vview(nodes@),
                    forall|k: int| 0 <= k < row@.len() ==> (#[trigger] row@[k]) < j,
                    forall|y: int| 0 <= y < n ==> (#[trigger] row@.contains(y as usize) <==> (y < j && adjacent(nv, ids@[i as int]@, ids@[y]@))),
                decreases n - j,
            {
                let ghost r_old = row@;
                if linked(nodes, &ids, &at, i, j) {
                    row.push(j);
                    assert forall|y: int| 0 <= y < n implies (#[trigger] row@.contains(y as usize) <==> (y < j + 1 && adjacent(nv, ids@[i as int]@, ids@[y]@))) by {
                        if y < j && adjacent(nv, ids@[i as int]@, ids@[y]@) {
                            assert(r_old.contains(y as usize));
                            let k = choose|k: int| 0 <= k < r_old.len() && r_old[k] == y as usize;
                            assert(row@[k] == y as usize);
                        }
                        if y == j {
                            assert(row@[row@.len() - 1] == y as usize);
                        }
                        if row@.contains(y as usize) && y != j {
                            let k = choose|k: int| 0 <= k < row@.len() && row@[k] == y as usize;
                            if k == r_old.len() {
                                assert(row@[k] == j);
                            } else {
                                assert(r_old[k] == y as usize);
                                assert(r_old.contains(y as usize));
                            }
                        }
                    }
                } else {
                    assert forall|y: int| 0 <= y < n implies (#[trigger] row@.contains(y as usize) <==> (y < j + 1 && adjacent(nv, ids@[i as int]@, ids@[y]@))) by {
                        if row@.contains(y as usize) {
                            let k = choose|k: int| 0 <= k < row@.len() && row@[k] == y as usize;
                            assert(row@[k] < j);
                            assert(y < j);
                        }
                        if y < j + 1 && adjacent(nv, ids@[i as int]@, ids@[y]@) {
                            assert(y != j as int);
                            assert(y < j);
                        }
                    }
                }
                j += 1;
            }
            adj.push(row);
            i += 1;
        }
    }
    let ghost g = adj_view(adj@);
    let visited: Vec<bool> = match found {
        Some(t) => {
            proof {
                assert(adj_matches(nv, ids@, g)) by {
                    assert forall|x: int, k: int| 0 <= x < g.len() && 0 <= k < g[x].len() implies (#[trigger] g[x][k]) < g.len() by {
                        assert(g[x] == adj@[x]@);
                    }
                    assert forall|i: int, j: int| 0 <= i < ids@.len() && 0 <= j < ids@.len() implies
                        (#[trigger] edge(g, i, j) <==> adjacent(nv, ids@[i]@, ids@[j]@)) by {
                        assert(g[i] == adj@[i]@);
                    }
                }
            }
            let mut start: Vec<usize> = Vec::new();
            start.push(t);
            let v = explore(&adj, &start, depth);
            proof {
                assert(start@ =~= seq![t]);
                lemma_start_single(t);
            }
            v
        },
        None => Vec::new(),
    };
    // Keep the nodes whose id was reached.
    let mut out: Vec<Json> = Vec::new();
    let mut p: usize = 0;
    while p < nodes.len()
        invariant
            p <= nodes@.len(),
            nv == vview(nodes@),
            pred == keeps_pred(nv, target_id@, depth as nat),
            index_ok(IndexKind::Nodes, nv, ids@, at@, nodes@.len() as int),
            found matches Some(t) ==> t < ids@.len() && ids@[t as int]@ == target_id@
                && adj_matches(nv, ids@, g) && visited@.len() == ids@.len()
                && (depth > 0 ==> marked(visited@) == within(g, set![t as int], depth as nat))
                && (depth == 0 ==> marked(visited@) == reachable(g, set![t as int])),
            found is None ==> forall|i: int| 0 <= i < ids@.len() ==> (#[trigger] ids@[i])@ != target_id@,
            vview(out@) == nv.take(p as int).filter(pred),
        decreases nodes@.len() - p,
    {
        assert(nv[p as int] == nodes@[p as int]@);
        let keep = match found {
            Some(t) => match node_uid(&nodes[p]) {
                Some(u) => match index_of(&ids, u) {
                    Some(j) => {
                        proof {
                            if depth > 0 {
                                lemma_levels_match(nv, ids@, at@, g, t as int, depth as nat);
                                assert(marked(visited@).contains(j as int) == visited@[j as int]);
                            } else {
                                assert(marked(visited@).contains(j as int) == visited@[j as int]);
                                if visited@[j as int] {
                                    let k = choose|k: nat| #[trigger] within(g, set![t as int], k).contains(j as int);
                                    lemma_levels_match(nv, ids@, at@, g, t as int, k);
                                    assert(hops(nv, target_id@, k).contains(u@));
                                } else {
                                    assert forall|k: nat| !(#[trigger] hops(nv, target_id@, k).contains(u@)) by {
                                        lemma_levels_match(nv, ids@, at@, g, t as int, k);
                                        if hops(nv, target_id@, k).contains(u@) {
                                            assert(reachable(g, set![t as int]).contains(j as int));
                                        }
                                    }
                                }
                            }
                        }
                        visited[j]
                    },
                    None => {
                        proof {
                            assert(!in_graph(nv, u@)) by {
                                if in_graph(nv, u@) {
                                    assert(last_node(nv, u@, nv.len() as int) >= 0);
                                }
                            }
                            if depth > 0 {
                                lemma_levels_match(nv, ids@, at@, g, t as int, depth as nat);
                            } else {
                                assert forall|k: nat| !(#[trigger] hops(nv, target_id@, k).contains(u@)) by {
                                    lemma_levels_match(nv, ids@, at@, g, t as int, k);
                                }
                            }
                        }
                        false
                    },
                },
                None => false,
            },
            None => {
                proof {
                    assert(!in_graph(nv, target_id@)) by {
                        if in_graph(nv, target_id@) {
                            assert(last_node(nv, target_id@, nv.len() as int) >= 0);
                        }
                    }
                }
                false
            },
        };
        assert(keep == pred(nv[p as int]));
        if keep {
            out.push(clone_json(&nodes[p]));
        }
        proof {
            reveal_with_fuel(Seq::filter, 1);
            assert(nv.take(p + 1).drop_last() =~= nv.take(p as int));
            assert(vview(out@) =~= nv.take(p + 1).filter(pred));
        }
        p += 1;
    }
    assert(nv.take(nodes@.len() as int) =~= nv);
    out
}

// ---------------------------------------------------------------------------
// The lineage query
// ---------------------------------------------------------------------------

/// The resource types the lineage query asks for when none are given.
pub open spec fn all_lineage_types_v() -> Seq<Seq<char>> {
    seq!["Analysis"@, "Exposure"@, "Model"@, "Seed"@, "Snapshot"@, "Source"@, "Test"@]
}

/// The resource types to ask for: those given, or all of them.
pub fn lineage_types(types: &Vec<String>) -> (r: Vec<String>)
    ensures
        r@.map_values(|s: String| s@) == (if types@.len() == 0 { all_lineage_types_v() } else { types@.map_values(|s: String| s@) }),
{
    if types.len() == 0 {
        let r = vec![
            owned("Analysis"), owned("Exposure"), owned("Model"), owned("Seed"),
            owned("Snapshot"), owned("Source"), owned("Test"),
        ];
        assert(r@.map_values(|s: String| s@) =~= all_lineage_types_v());
        r
    } else {
        types.clone()
    }
}

/// The variables of the full lineage query.
pub open spec fn lineage_vars_v(environment_id: u64, types: Seq<String>) -> JsonV {
    JsonV::Object(seq![
        ("environmentId"@, u64_v(environment_id)),
        ("types"@, str_array_v(types)),
    ])
}

/// `{"environmentId": .., "types": [..]}`.
pub fn lineage_vars(environment_id: u64, types: &Vec<String>) -> (r: Json)
    ensures
        r@ == lineage_vars_v(environment_id, types@),
{
    let r = object_of(vec![
        entry("environmentId", Json::from_u64(environment_id)),
        entry("types", string_array(types)),
    ]);
    assert(r@->Object_0 =~= lineage_vars_v(environment_id, types@)->Object_0);
    r
}

/// The nodes of an answer to the full lineage query.
pub open spec fn lineage_nodes_v(data: JsonV) -> Seq<JsonV> {
    match as_array_v(at_v(at_v(at_v(data, "environment"@), "applied"@), "lineage"@)) {
        Some(a) => a,
        None => Seq::empty(),
    }
}

/// `data["environment"]["applied"]["lineage"]`, or no nodes.
pub fn lineage_nodes(data: &Json) -> (r: Vec<Json>)
    ensures
        vview(r@) == lineage_nodes_v(data@),
{
    let env = at(data, "environment");
    let applied = at(&env, "applied");
    match array_at(&applied, "lineage") {
        Some(a) => {
            proof { lemma_array_view(*a); }
            let mut out: Vec<Json> = Vec::new();
            let mut i: usize = 0;
            while i < a.len()
                invariant
                    i <= a@.len(),
                    out@.len() == i,
                    forall|x: int| 0 <= x < i ==> (#[trigger] out@[x])@ == a@[x]@,
                decreases a@.len() - i,
            {
                out.push(clone_json(&a[i]));
                i += 1;
            }
            assert(vview(out@) =~= lineage_nodes_v(data@));
            out
        },
        None => {
            let out: Vec<Json> = Vec::new();
            assert(vview(out@) =~= lineage_nodes_v(data@));
            out
        },
    }
}

/// The lineage graph around a node as the `lineage show` command shows
/// it: the nodes of the answer connected to `unique_id` within `depth`
/// hops (any distance when `depth` is 0), in the order they are given.
pub fn shape_lineage(data: &Json, unique_id: &str, depth: u32) -> (r: Json)
    ensures
        r@ == JsonV::Array(lineage_nodes_v(data@).filter(keeps_pred(lineage_nodes_v(data@), unique_id@, depth as nat))),
{
    let nodes = lineage_nodes(data);
    let kept = filter_connected_nodes(&nodes, unique_id, depth);
    array_of(kept)
}

} // verus!
