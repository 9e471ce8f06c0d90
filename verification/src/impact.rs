//! Impact analysis of changed models: the public models downstream of a
//! change, the columns of the change that land in them, and the models of
//! other projects that consume them.
use vstd::prelude::*;

use crate::graph::{adj_view, edge, explore, marked, reachable, start_set, well_formed, within};
use crate::json::{at_v, clone_json, group_json_view, json_view, lemma_array_view, Json, JsonV};
use crate::lineage::{index_of, names_in, node_uid, uid_of, vview};
use crate::config::opt_v;
use crate::error::{config_error, DbtpError};
use crate::discovery::{extract_nodes, extract_path, keys_v, nodes_of_v, path_v};
use crate::json::{
    array_at, array_of, as_array_v, as_str_v, as_u64_v, at, entry, get_v, keys_sorted, lemma_obj_set, obj_lookup, obj_set,
    object_of, set_field, set_field_v,
    str_array_v, str_at, string_array, u64_at, u64_v,
};
use crate::lists::{insert_sorted, sorted_texts};
use crate::lists::{add_text, distinct_texts, has_text, text_set};
use crate::json::{chars_lt, lemma_chars_lt_total, lemma_chars_lt_trans, str_lt};
use crate::text::{
    spec_decimal, chars_of, ends_with, is_suffix, owned, spec_to_lowercase, spec_trim, str_ends_with, str_eq,
    str_has_char, string_of, to_lowercase, trim, u64_to_string,
};

verus! {

broadcast use group_json_view;

// ---------------------------------------------------------------------------
// Model of the downstream walk
// ---------------------------------------------------------------------------

/// The node lists `p` among its `parentIds`.
pub open spec fn lists_parent(n: JsonV, p: Seq<char>) -> bool {
    names_in(at_v(n, "parentIds"@), p)
}

/// One of the first `m` nodes has id `c` and lists `p` as a parent.
pub open spec fn links_before(nodes: Seq<JsonV>, m: int, p: Seq<char>, c: Seq<char>) -> bool {
    exists|k: int| 0 <= k < m && uid_of(nodes[k]) == Some(c) && #[trigger] lists_parent(nodes[k], p)
}

/// `c` is a child of `p`: some node with id `c` lists `p` as a parent.
pub open spec fn child_link(nodes: Seq<JsonV>, p: Seq<char>, c: Seq<char>) -> bool {
    links_before(nodes, nodes.len() as int, p, c)
}

/// The ids at most `k` child links below the roots.
pub open spec fn below(nodes: Seq<JsonV>, roots: Set<Seq<char>>, k: nat) -> Set<Seq<char>>
    decreases k,
{
    if k == 0 {
        roots
    } else {
        let prev = below(nodes, roots, (k - 1) as nat);
        prev.union(Set::new(|c: Seq<char>| exists|p: Seq<char>| prev.contains(p) && #[trigger] child_link(nodes, p, c)))
    }
}

/// The ids that can be reached from the roots by child links.
pub open spec fn downstream(nodes: Seq<JsonV>, roots: Set<Seq<char>>) -> Set<Seq<char>> {
    Set::new(|c: Seq<char>| exists|k: nat| #[trigger] below(nodes, roots, k).contains(c))
}

/// The public models found downstream of the roots, the roots themselves
/// left out.
pub open spec fn public_below(nodes: Seq<JsonV>, roots: Set<Seq<char>>, public: Set<Seq<char>>) -> Set<Seq<char>> {
    Set::new(|c: Seq<char>| downstream(nodes, roots).contains(c) && !roots.contains(c) && public.contains(c))
}

// ---------------------------------------------------------------------------
// The graph over positions
// ---------------------------------------------------------------------------

/// Every node that has an id is named in `ids`.
pub open spec fn covers_nodes(nodes: Seq<JsonV>, ids: Seq<String>) -> bool {
    forall|k: int| 0 <= k < nodes.len() && (#[trigger] uid_of(nodes[k])) is Some ==> text_set(ids).contains(uid_of(nodes[k])->0)
}

/// The ids of the walk: those of the nodes and the roots, each once.
fn walk_ids(nodes: &Vec<Json>, roots: &Vec<String>) -> (r: Vec<String>)
    ensures
        distinct_texts(r@),
        covers_nodes(vview(nodes@), r@),
        text_set(roots@).subset_of(text_set(r@)),
{
    let ghost nv = vview(nodes@);
    let mut ids: Vec<String> = Vec::new();
    let mut m: usize = 0;
    while m < nodes.len()
        invariant
            m <= nodes@.len(),
            nv == vview(nodes@),
            distinct_texts(ids@),
            forall|k: int| 0 <= k < m && (#[trigger] uid_of(nv[k])) is Some ==> text_set(ids@).contains(uid_of(nv[k])->0),
        decreases nodes@.len() - m,
    {
        assert(nv[m as int] == nodes@[m as int]@);
        if let Some(u) = node_uid(&nodes[m]) {
            add_text(&mut ids, u);
        }
        m += 1;
    }
    let mut k: usize = 0;
    while k < roots.len()
        invariant
            k <= roots@.len(),
            nv == vview(nodes@),
            distinct_texts(ids@),
            covers_nodes(nv, ids@),
            forall|x: int| 0 <= x < k ==> text_set(ids@).contains((#[trigger] roots@[x])@),
        decreases roots@.len() - k,
    {
        add_text(&mut ids, roots[k].as_str());
        k += 1;
    }
    assert forall|t: Seq<char>| text_set(roots@).contains(t) implies text_set(ids@).contains(t) by {
        let x = choose|x: int| 0 <= x < roots@.len() && #[trigger] roots@[x]@ == t;
    }
    ids
}

proof fn lemma_links_step(nodes: Seq<JsonV>, m: int, p: Seq<char>, c: Seq<char>)
    requires
        0 <= m < nodes.len(),
    ensures
        links_before(nodes, m + 1, p, c) <==> (links_before(nodes, m, p, c)
            || (uid_of(nodes[m]) == Some(c) && lists_parent(nodes[m], p))),
{
    if links_before(nodes, m + 1, p, c) && !links_before(nodes, m, p, c) {
        let k = choose|k: int| 0 <= k < m + 1 && uid_of(nodes[k]) == Some(c) && #[trigger] lists_parent(nodes[k], p);
        assert(k == m);
    }
    if uid_of(nodes[m]) == Some(c) && lists_parent(nodes[m], p) {
        assert(lists_parent(nodes[m], p));
    }
    if links_before(nodes, m, p, c) {
        let k = choose|k: int| 0 <= k < m && uid_of(nodes[k]) == Some(c) && #[trigger] lists_parent(nodes[k], p);
        assert(lists_parent(nodes[k], p));
    }
}

/// One of the first `q` entries of `a` is the string `s`.
pub open spec fn lists_before(a: Seq<JsonV>, q: int, s: Seq<char>) -> bool {
    exists|q2: int| 0 <= q2 < q && #[trigger] a[q2] == JsonV::Str(s)
}

/// The child lists of the walk's graph: `j` follows `i` when the node with
/// id `ids[j]` lists `ids[i]` as a parent.
fn child_lists(nodes: &Vec<Json>, ids: &Vec<String>) -> (adj: Vec<Vec<usize>>)
    requires
        distinct_texts(ids@),
        covers_nodes(vview(nodes@), ids@),
    ensures
        adj@.len() == ids@.len(),
        well_formed(adj_view(adj@)),
        forall|i: int, j: int| 0 <= i < ids@.len() && 0 <= j < ids@.len() ==>
            (#[trigger] edge(adj_view(adj@), i, j) <==> child_link(vview(nodes@), ids@[i]@, ids@[j]@)),
{
    let ghost nv = vview(nodes@);
    let n = ids.len();
    let mut adj: Vec<Vec<usize>> = Vec::new();
    let mut i: usize = 0;
    while i < n
        invariant
            i <= n,
            adj@.len() == i,
            forall|x: int| 0 <= x < i ==> (#[trigger] adj@[x])@.len() == 0,
        decreases n - i,
    {
        adj.push(Vec::new());
        i += 1;
    }
    let mut m: usize = 0;
    while m < nodes.len()
        invariant
            m <= nodes@.len(),
            n == ids@.len(),
            nv == vview(nodes@),
            distinct_texts(ids@),
            covers_nodes(nv, ids@),
            adj@.len() == n,
            forall|x: int, k: int| 0 <= x < n && 0 <= k < adj@[x]@.len() ==> (#[trigger] adj@[x]@[k]) < n,
            forall|x: int, y: int| 0 <= x < n && 0 <= y < n ==>
                (#[trigger] adj@[x]@.contains(y as usize) <==> links_before(nv, m as int, ids@[x]@, ids@[y]@)),
        decreases nodes@.len() - m,
    {
        let node = &nodes[m];
        assert(nv[m as int] == node@);
        proof {
            assert forall|x: int, y: int| 0 <= x < n && 0 <= y < n implies
                (links_before(nv, m + 1, ids@[x]@, ids@[y]@) <==> (links_before(nv, m as int, ids@[x]@, ids@[y]@)
                    || (uid_of(nv[m as int]) == Some(ids@[y]@) && lists_parent(nv[m as int], ids@[x]@)))) by {
                lemma_links_step(nv, m as int, ids@[x]@, ids@[y]@);
            }
        }
        match node_uid(node) {
            Some(u) => {
                let found = index_of(ids, u);
                proof {
                    if found is None {
                        assert(text_set(ids@).contains(u@));
                        let x = choose|x: int| 0 <= x < ids@.len() && #[trigger] ids@[x]@ == u@;
                        assert(false);
                    }
                }
                let jm = found.unwrap();
                match node.get("parentIds") {
                    Some(Json::Array(ps)) => {
                        let ghost a = json_view(Json::Array(*ps))->Array_0;
                        proof {
                            lemma_array_view(*ps);
                            assert(at_v(nv[m as int], "parentIds"@) == JsonV::Array(a));
                        }
                        let mut q: usize = 0;
                        while q < ps.len()
                            invariant
                                q <= ps@.len(),
                                n == ids@.len(),
                                jm < n,
                                ids@[jm as int]@ == u@,
                                a.len() == ps@.len(),
                                forall|k: int| 0 <= k < a.len() ==> a[k] == (#[trigger] ps@[k])@,
                                distinct_texts(ids@),
                                adj@.len() == n,
                                forall|x: int, k: int| 0 <= x < n && 0 <= k < adj@[x]@.len() ==> (#[trigger] adj@[x]@[k]) < n,
                                forall|x: int, y: int| 0 <= x < n && 0 <= y < n ==>
                                    (#[trigger] adj@[x]@.contains(y as usize) <==> (links_before(nv, m as int, ids@[x]@, ids@[y]@)
                                        || (y == jm && lists_before(a, q as int, ids@[x]@)))),
                            decreases ps@.len() - q,
                        {
                            let ghost before = adj@;
                            let ghost aq = a[q as int];
                            proof {
                                assert forall|x: int| 0 <= x < n implies
                                    (lists_before(a, q + 1, ids@[x]@) <==> (lists_before(a, q as int, ids@[x]@) || aq == JsonV::Str(ids@[x]@))) by {
                                    if lists_before(a, q + 1, ids@[x]@) && !lists_before(a, q as int, ids@[x]@) {
                                        let q2 = choose|q2: int| 0 <= q2 < q + 1 && #[trigger] a[q2] == JsonV::Str(ids@[x]@);
                                        assert(q2 == q);
                                    }
                                    if aq == JsonV::Str(ids@[x]@) {
                                        assert(a[q as int] == JsonV::Str(ids@[x]@));
                                    }
                                }
                            }
                            let mut hit: Option<usize> = None;
                            if let Some(p) = ps[q].as_str() {
                                hit = index_of(ids, p);
                                proof {
                                    assert(aq == JsonV::Str(p@));
                                }
                            }
                            proof {
                                assert forall|x: int| 0 <= x < n && (hit is None || x != hit->0 as int) implies aq != JsonV::Str(ids@[x]@) by {
                                    if hit is Some {
                                        assert(ids@[hit->0 as int]@ != ids@[x]@) by {
                                            if (hit->0 as int) < x {
                                                assert(ids@[hit->0 as int]@ != ids@[x]@);
                                            } else {
                                                assert(ids@[x]@ != ids@[hit->0 as int]@);
                                            }
                                        }
                                    }
                                }
                            }
                            if let Some(h) = hit {
                                adj[h].push(jm);
                                proof {
                                    assert(aq == JsonV::Str(ids@[h as int]@));
                                    assert forall|x: int, k: int| 0 <= x < n && 0 <= k < adj@[x]@.len() implies (#[trigger] adj@[x]@[k]) < n by {
                                        if x != h as int {
                                            assert(adj@[x] == before[x]);
                                        } else if k < before[x]@.len() {
                                            assert(adj@[x]@[k] == before[x]@[k]);
                                        }
                                    }
                                    assert forall|x: int, y: int| 0 <= x < n && 0 <= y < n implies
                                        (#[trigger] adj@[x]@.contains(y as usize) <==> (links_before(nv, m as int, ids@[x]@, ids@[y]@)
                                            || (y == jm && lists_before(a, q + 1, ids@[x]@)))) by {
                                        if x != h as int {
                                            assert(adj@[x] == before[x]);
                                        } else {
                                            assert(adj@[x]@ == before[x]@.push(jm));
                                            if before[x]@.contains(y as usize) {
                                                let k = choose|k: int| 0 <= k < before[x]@.len() && before[x]@[k] == y as usize;
                                                assert(adj@[x]@[k] == y as usize);
                                            }
                                            if y == jm {
                                                assert(adj@[x]@[before[x]@.len() as int] == jm);
                                            }
                                            if adj@[x]@.contains(y as usize) {
                                                let k = choose|k: int| 0 <= k < adj@[x]@.len() && adj@[x]@[k] == y as usize;
                                                if k < before[x]@.len() {
                                                    assert(before[x]@[k] == y as usize);
                                                    assert(before[x]@.contains(y as usize));
                                                }
                                            }
                                        }
                                    }
                                }
                            }
                            q += 1;
                        }
                        proof {
                            assert forall|x: int| 0 <= x < n implies
                                (lists_before(a, a.len() as int, ids@[x]@) <==> #[trigger] lists_parent(nv[m as int], ids@[x]@)) by {
                                if lists_before(a, a.len() as int, ids@[x]@) {
                                    let q2 = choose|q2: int| 0 <= q2 < a.len() && #[trigger] a[q2] == JsonV::Str(ids@[x]@);
                                    assert(a.contains(JsonV::Str(ids@[x]@)));
                                }
                                if a.contains(JsonV::Str(ids@[x]@)) {
                                    let q2 = choose|q2: int| 0 <= q2 < a.len() && a[q2] == JsonV::Str(ids@[x]@);
                                    assert(a[q2] == JsonV::Str(ids@[x]@));
                                }
                            }
                            assert forall|y: int| 0 <= y < n implies
                                (uid_of(nv[m as int]) == Some((#[trigger] ids@[y])@) <==> y == jm) by {
                                if y != jm as int {
                                    if (jm as int) < y {
                                        assert(ids@[jm as int]@ != ids@[y]@);
                                    } else {
                                        assert(ids@[y]@ != ids@[jm as int]@);
                                    }
                                }
                            }
                            assert forall|x: int, y: int| 0 <= x < n && 0 <= y < n implies
                                (#[trigger] adj@[x]@.contains(y as usize) <==> links_before(nv, m + 1, ids@[x]@, ids@[y]@)) by {
                                assert(lists_before(a, a.len() as int, ids@[x]@) <==> lists_parent(nv[m as int], ids@[x]@));
                                assert(uid_of(nv[m as int]) == Some(ids@[y]@) <==> y == jm);
                            }
                        }
                    },
                    other => {
                        proof {
                            assert forall|x: int| 0 <= x < n implies !#[trigger] lists_parent(nv[m as int], ids@[x]@) by {
                                match other {
                                    Some(v) => {
                                        assert(at_v(nv[m as int], "parentIds"@) == v@);
                                        assert(!(v@ is Array));
                                    },
                                    None => {},
                                }
                            }
                            assert forall|x: int, y: int| 0 <= x < n && 0 <= y < n implies
                                (#[trigger] adj@[x]@.contains(y as usize) <==> links_before(nv, m + 1, ids@[x]@, ids@[y]@)) by {
                                assert(!lists_parent(nv[m as int], ids@[x]@));
                            }
                        }
                    },
                }
            },
            None => {
                assert forall|x: int, y: int| 0 <= x < n && 0 <= y < n implies
                    (#[trigger] adj@[x]@.contains(y as usize) <==> links_before(nv, m + 1, ids@[x]@, ids@[y]@)) by {
                    assert(uid_of(nv[m as int]) is None);
                }
            },
        }
        m += 1;
    }
    let ghost g = adj_view(adj@);
    assert forall|x: int, k: int| 0 <= x < g.len() && 0 <= k < g[x].len() implies (#[trigger] g[x][k]) < g.len() by {
        assert(g[x] == adj@[x]@);
    }
    assert forall|i: int, j: int| 0 <= i < ids@.len() && 0 <= j < ids@.len() implies
        (#[trigger] edge(g, i, j) <==> child_link(nv, ids@[i]@, ids@[j]@)) by {
        assert(g[i] == adj@[i]@);
    }
    adj
}

proof fn lemma_below_match(nv: Seq<JsonV>, ids: Seq<String>, g: Seq<Seq<usize>>, roots: Set<Seq<char>>, start: Set<int>, k: nat)
    requires
        covers_nodes(nv, ids),
        g.len() == ids.len(),
        forall|i: int, j: int| 0 <= i < ids.len() && 0 <= j < ids.len() ==>
            (#[trigger] edge(g, i, j) <==> child_link(nv, ids[i]@, ids[j]@)),
        forall|j: int| #[trigger] start.contains(j) ==> 0 <= j < ids.len(),
        forall|j: int| 0 <= j < ids.len() ==> (start.contains(j) <==> roots.contains(#[trigger] ids[j]@)),
        roots.subset_of(text_set(ids)),
    ensures
        forall|j: int| 0 <= j < ids.len() ==> (within(g, start, k).contains(j) <==> #[trigger] below(nv, roots, k).contains(ids[j]@)),
        forall|id: Seq<char>| #[trigger] below(nv, roots, k).contains(id) ==> text_set(ids).contains(id),
        forall|j: int| #[trigger] within(g, start, k).contains(j) ==> 0 <= j < ids.len(),
    decreases k,
{
    if k > 0 {
        let k1 = (k - 1) as nat;
        lemma_below_match(nv, ids, g, roots, start, k1);
        let wp = within(g, start, k1);
        let bp = below(nv, roots, k1);
        assert forall|j: int| 0 <= j < ids.len() implies (within(g, start, k).contains(j) <==> #[trigger] below(nv, roots, k).contains(ids[j]@)) by {
            if within(g, start, k).contains(j) && !wp.contains(j) {
                let i = choose|i: int| wp.contains(i) && #[trigger] edge(g, i, j);
                assert(bp.contains(ids[i]@));
                assert(child_link(nv, ids[i]@, ids[j]@));
            }
            if below(nv, roots, k).contains(ids[j]@) && !bp.contains(ids[j]@) {
                let p = choose|p: Seq<char>| bp.contains(p) && #[trigger] child_link(nv, p, ids[j]@);
                assert(text_set(ids).contains(p));
                let i = choose|i: int| 0 <= i < ids.len() && #[trigger] ids[i]@ == p;
                assert(wp.contains(i));
                assert(edge(g, i, j));
            }
        }
        assert forall|id: Seq<char>| #[trigger] below(nv, roots, k).contains(id) implies text_set(ids).contains(id) by {
            if !bp.contains(id) {
                let p = choose|p: Seq<char>| bp.contains(p) && #[trigger] child_link(nv, p, id);
                let w = choose|w: int| 0 <= w < nv.len() && uid_of(nv[w]) == Some(id) && #[trigger] lists_parent(nv[w], p);
                assert(uid_of(nv[w]) is Some);
            }
        }
        assert forall|j: int| #[trigger] within(g, start, k).contains(j) implies 0 <= j < ids.len() by {
            if !wp.contains(j) {
                let i = choose|i: int| wp.contains(i) && #[trigger] edge(g, i, j);
            }
        }
    }
}

/// The public models downstream of `root_ids` in the node lineage (walking
/// from each node to the nodes that list it as a parent), each once; the
/// roots themselves are not reported.
pub fn find_downstream_public(nodes: &Vec<Json>, root_ids: &Vec<String>, public_ids: &Vec<String>) -> (r: Vec<String>)
    ensures
        distinct_texts(r@),
        text_set(r@) == public_below(vview(nodes@), text_set(root_ids@), text_set(public_ids@)),
{
    let ghost nv = vview(nodes@);
    let ghost roots = text_set(root_ids@);
    let ghost public = text_set(public_ids@);
    let ids = walk_ids(nodes, root_ids);
    let adj = child_lists(nodes, &ids);
    let n = ids.len();
    let ghost g = adj_view(adj@);
    // The positions of the roots.
    let mut start: Vec<usize> = Vec::new();
    let mut k: usize = 0;
    while k < root_ids.len()
        invariant
            k <= root_ids@.len(),
            n == ids@.len(),
            roots == text_set(root_ids@),
            roots.subset_of(text_set(ids@)),
            distinct_texts(ids@),
            forall|x: int| 0 <= x < start@.len() ==> (#[trigger] start@[x]) < n,
            forall|j: int| 0 <= j < n ==> (start_set(start@).contains(j) <==>
                exists|x: int| 0 <= x < k && (#[trigger] root_ids@[x])@ == ids@[j]@),
        decreases root_ids@.len() - k,
    {
        let found = index_of(&ids, root_ids[k].as_str());
        proof {
            if found is None {
                assert(roots.contains(root_ids@[k as int]@));
                let x = choose|x: int| 0 <= x < ids@.len() && #[trigger] ids@[x]@ == root_ids@[k as int]@;
                assert(false);
            }
        }
        let j0 = found.unwrap();
        let ghost before = start@;
        start.push(j0);
        proof {
            assert forall|j: int| 0 <= j < n implies (start_set(start@).contains(j) <==>
                exists|x: int| 0 <= x < k + 1 && (#[trigger] root_ids@[x])@ == ids@[j]@) by {
                if start_set(start@).contains(j) {
                    let y = choose|y: int| 0 <= y < start@.len() && start@[y] as int == j;
                    if y == before.len() {
                        assert(root_ids@[k as int]@ == ids@[j]@);
                    } else {
                        assert(start_set(before).contains(j)) by {
                            assert(before[y] as int == j);
                        }
                    }
                }
                if exists|x: int| 0 <= x < k + 1 && (#[trigger] root_ids@[x])@ == ids@[j]@ {
                    let x = choose|x: int| 0 <= x < k + 1 && (#[trigger] root_ids@[x])@ == ids@[j]@;
                    if x == k {
                        if j != j0 as int {
                            if j < j0 as int {
                                assert(ids@[j]@ != ids@[j0 as int]@);
                            } else {
                                assert(ids@[j0 as int]@ != ids@[j]@);
                            }
                        }
                        assert(start@[before.len() as int] as int == j);
                    } else {
                        assert(start_set(before).contains(j));
                        let y = choose|y: int| 0 <= y < before.len() && before[y] as int == j;
                        assert(start@[y] as int == j);
                    }
                }
            }
        }
        k += 1;
    }
    let ghost st = start_set(start@);
    proof {
        assert forall|j: int| #[trigger] st.contains(j) implies 0 <= j < n by {
            let y = choose|y: int| 0 <= y < start@.len() && start@[y] as int == j;
        }
        assert forall|j: int| 0 <= j < n implies (st.contains(j) <==> roots.contains(#[trigger] ids@[j]@)) by {
            if roots.contains(ids@[j]@) {
                let x = choose|x: int| 0 <= x < root_ids@.len() && #[trigger] root_ids@[x]@ == ids@[j]@;
            }
        }
    }
    let visited = explore(&adj, &start, 0);
    // Report the public models reached, roots left out.
    let mut out: Vec<String> = Vec::new();
    let mut j: usize = 0;
    while j < n
        invariant
            j <= n,
            n == ids@.len(),
            visited@.len() == n,
            distinct_texts(ids@),
            distinct_texts(out@),
            forall|t: Seq<char>| text_set(out@).contains(t) <==> exists|y: int| 0 <= y < j && (#[trigger] ids@[y])@ == t
                && visited@[y] && !roots.contains(t) && public.contains(t),
            roots == text_set(root_ids@),
            public == text_set(public_ids@),
        decreases n - j,
    {
        let ghost before = out@;
        if visited[j] && !has_text(root_ids, ids[j].as_str()) && has_text(public_ids, ids[j].as_str()) {
            out.push(ids[j].clone());
            proof {
                assert(!text_set(before).contains(ids@[j as int]@)) by {
                    if text_set(before).contains(ids@[j as int]@) {
                        let y = choose|y: int| 0 <= y < j && (#[trigger] ids@[y])@ == ids@[j as int]@
                            && visited@[y] && !roots.contains(ids@[j as int]@) && public.contains(ids@[j as int]@);
                        assert(ids@[y]@ != ids@[j as int]@);
                    }
                }
                assert forall|a: int, b: int| 0 <= a < b < out@.len() implies (#[trigger] out@[a])@ != (#[trigger] out@[b])@ by {
                    if b == before.len() {
                        assert(out@[a] == before[a]);
                        assert(text_set(before).contains(before[a]@));
                    } else {
                        assert(out@[a] == before[a] && out@[b] == before[b]);
                    }
                }
                assert forall|t: Seq<char>| text_set(out@).contains(t) <==> exists|y: int| 0 <= y < j + 1 && (#[trigger] ids@[y])@ == t
                    && visited@[y] && !roots.contains(t) && public.contains(t) by {
                    if text_set(out@).contains(t) {
                        let x = choose|x: int| 0 <= x < out@.len() && #[trigger] out@[x]@ == t;
                        if x < before.len() {
                            assert(before[x]@ == t);
                            assert(text_set(before).contains(t));
                        } else {
                            assert(ids@[j as int]@ == t);
                        }
                    }
                    if exists|y: int| 0 <= y < j + 1 && (#[trigger] ids@[y])@ == t && visited@[y] && !roots.contains(t) && public.contains(t) {
                        let y = choose|y: int| 0 <= y < j + 1 && (#[trigger] ids@[y])@ == t && visited@[y] && !roots.contains(t) && public.contains(t);
                        if y < j {
                            assert(text_set(before).contains(t));
                            let x = choose|x: int| 0 <= x < before.len() && #[trigger] before[x]@ == t;
                            assert(out@[x]@ == t);
                        } else {
                            assert(out@[before.len() as int]@ == t);
                        }
                    }
                }
            }
        } else {
            proof {
                assert forall|t: Seq<char>| text_set(out@).contains(t) <==> exists|y: int| 0 <= y < j + 1 && (#[trigger] ids@[y])@ == t
                    && visited@[y] && !roots.contains(t) && public.contains(t) by {
                    if exists|y: int| 0 <= y < j + 1 && (#[trigger] ids@[y])@ == t && visited@[y] && !roots.contains(t) && public.contains(t) {
                        let y = choose|y: int| 0 <= y < j + 1 && (#[trigger] ids@[y])@ == t && visited@[y] && !roots.contains(t) && public.contains(t);
                        if y == j {
                            assert(false);
                        }
                    }
                }
            }
        }
        j += 1;
    }
    proof {
        let want = public_below(nv, roots, public);
        assert forall|t: Seq<char>| text_set(out@).contains(t) <==> want.contains(t) by {
            if text_set(out@).contains(t) {
                let y = choose|y: int| 0 <= y < n && (#[trigger] ids@[y])@ == t && visited@[y] && !roots.contains(t) && public.contains(t);
                assert(marked(visited@).contains(y));
                let kk = choose|kk: nat| #[trigger] within(g, st, kk).contains(y);
                lemma_below_match(nv, ids@, g, roots, st, kk);
                assert(below(nv, roots, kk).contains(t));
                assert(downstream(nv, roots).contains(t));
            }
            if want.contains(t) {
                let kk = choose|kk: nat| #[trigger] below(nv, roots, kk).contains(t);
                lemma_below_match(nv, ids@, g, roots, st, kk);
                let y = choose|y: int| 0 <= y < ids@.len() && #[trigger] ids@[y]@ == t;
                assert(within(g, st, kk).contains(y));
                assert(reachable(g, st).contains(y));
                assert(visited@[y]);
            }
        }
        assert(text_set(out@) =~= want);
    }
    out
}

// ---------------------------------------------------------------------------
// Public models and changed files
// ---------------------------------------------------------------------------

/// The model is declared public.
pub open spec fn is_public_v(m: JsonV) -> bool {
    as_str_v(at_v(m, "access"@)) == Some("public"@)
}

/// The ids of the public models in a list of models.
pub open spec fn public_ids_v(models: Seq<JsonV>) -> Set<Seq<char>> {
    Set::new(|u: Seq<char>| exists|k: int| 0 <= k < models.len() && is_public_v(models[k]) && #[trigger] uid_of(models[k]) == Some(u))
}

/// The unique ids of the public models, each once.
pub fn public_model_ids(models: &Vec<Json>) -> (r: Vec<String>)
    ensures
        distinct_texts(r@),
        text_set(r@) == public_ids_v(vview(models@)),
{
    let ghost mv = vview(models@);
    let mut out: Vec<String> = Vec::new();
    let mut k: usize = 0;
    while k < models.len()
        invariant
            k <= models@.len(),
            mv == vview(models@),
            distinct_texts(out@),
            text_set(out@) == Set::new(|u: Seq<char>| exists|j: int| 0 <= j < k && is_public_v(mv[j]) && #[trigger] uid_of(mv[j]) == Some(u)),
        decreases models@.len() - k,
    {
        let m = &models[k];
        assert(mv[k as int] == m@);
        let ghost before = text_set(out@);
        let public = match str_at(m, "access") {
            Some(a) => str_eq(a, "public"),
            None => false,
        };
        if public {
            if let Some(u) = node_uid(m) {
                add_text(&mut out, u);
            }
        }
        assert(text_set(out@) =~= Set::new(|u: Seq<char>| exists|j: int| 0 <= j < k + 1 && is_public_v(mv[j]) && #[trigger] uid_of(mv[j]) == Some(u))) by {
            assert forall|u: Seq<char>| (exists|j: int| 0 <= j < k + 1 && is_public_v(mv[j]) && #[trigger] uid_of(mv[j]) == Some(u))
                implies text_set(out@).contains(u) by {
                let j = choose|j: int| 0 <= j < k + 1 && is_public_v(mv[j]) && #[trigger] uid_of(mv[j]) == Some(u);
                if j < k {
                    assert(before.contains(u));
                }
            }
            assert forall|u: Seq<char>| text_set(out@).contains(u) implies
                (exists|j: int| 0 <= j < k + 1 && is_public_v(mv[j]) && #[trigger] uid_of(mv[j]) == Some(u)) by {
                if !before.contains(u) {
                    assert(uid_of(mv[k as int]) == Some(u));
                }
            }
        }
        k += 1;
    }
    assert(text_set(out@) =~= public_ids_v(mv));
    out
}

/// `c` replaced by `d` everywhere in `s`.
pub open spec fn replace_char_v(s: Seq<char>, c: char, d: char) -> Seq<char> {
    Seq::new(s.len(), |i: int| if s[i] == c { d } else { s[i] })
}

/// How paths are compared: trimmed, with forward slashes, lower-cased.
pub open spec fn normalize_path_v(p: Seq<char>) -> Seq<char> {
    spec_to_lowercase(replace_char_v(spec_trim(p), '\\', '/'))
}

/// Trims a path, turns backslashes into slashes and lower-cases it.
pub fn normalize_path(path: &str) -> (r: String)
    ensures
        r@ == normalize_path_v(path@),
{
    let t = trim(path);
    let cs = chars_of(t.as_str());
    let mut out: Vec<char> = Vec::new();
    let mut i: usize = 0;
    while i < cs.len()
        invariant
            i <= cs@.len(),
            cs@ == spec_trim(path@),
            out@ == replace_char_v(cs@, '\\', '/').take(i as int),
        decreases cs@.len() - i,
    {
        if cs[i] == '\\' {
            out.push('/');
        } else {
            out.push(cs[i]);
        }
        i += 1;
        assert(out@ =~= replace_char_v(cs@, '\\', '/').take(i as int));
    }
    assert(replace_char_v(cs@, '\\', '/').take(cs@.len() as int) =~= replace_char_v(cs@, '\\', '/'));
    let replaced = string_of(out.as_slice());
    to_lowercase(replaced.as_str())
}

/// Either path ends with the other, and neither is empty.
pub open spec fn suffix_match_v(input: Seq<char>, model_path: Seq<char>) -> bool {
    input.len() > 0 && model_path.len() > 0 && (is_suffix(input, model_path) || is_suffix(model_path, input))
}

/// Suffix-based path matching: true if either path ends with the other.
pub fn suffix_match(input: &str, model_path: &str) -> (r: bool)
    ensures
        r == suffix_match_v(input@, model_path@),
{
    let a = chars_of(input);
    let b = chars_of(model_path);
    if a.len() == 0 || b.len() == 0 {
        return false;
    }
    ends_with(b.as_slice(), a.as_slice()) || ends_with(a.as_slice(), b.as_slice())
}

/// Whether an input names a file rather than a model: it holds a slash or
/// ends in `.sql` or `.py`.
pub fn is_file_path(input: &str) -> (r: bool)
    ensures
        r == (input@.contains('/') || is_suffix(".sql"@, input@) || is_suffix(".py"@, input@)),
{
    str_has_char(input, '/') || str_ends_with(input, ".sql") || str_ends_with(input, ".py")
}

/// The model that a (normalized) file path stands for: its file path
/// matches and it has a unique id.
pub open spec fn path_matches_v(input: Seq<char>, m: JsonV) -> bool {
    let fp = match as_str_v(at_v(m, "filePath"@)) { Some(s) => s, None => Seq::empty() };
    suffix_match_v(input, normalize_path_v(fp)) && uid_of(m) is Some
}

/// The unique id of the first model that a normalized path matches.
pub open spec fn first_match_v(models: Seq<JsonV>, input: Seq<char>) -> Option<Seq<char>>
    decreases models.len(),
{
    if models.len() == 0 {
        None
    } else {
        match first_match_v(models.drop_last(), input) {
            Some(u) => Some(u),
            None => if path_matches_v(input, models.last()) { uid_of(models.last()) } else { None },
        }
    }
}

/// The unique ids that the paths resolve to, in order.
pub open spec fn resolved_v(models: Seq<JsonV>, paths: Seq<String>) -> Seq<Seq<char>>
    decreases paths.len(),
{
    if paths.len() == 0 {
        Seq::empty()
    } else {
        let rest = resolved_v(models, paths.drop_last());
        match first_match_v(models, normalize_path_v(paths.last()@)) {
            Some(u) => rest.push(u),
            None => rest,
        }
    }
}

/// The paths that resolve to no model, in order.
pub open spec fn unmatched_v(models: Seq<JsonV>, paths: Seq<String>) -> Seq<Seq<char>>
    decreases paths.len(),
{
    if paths.len() == 0 {
        Seq::empty()
    } else {
        let rest = unmatched_v(models, paths.drop_last());
        match first_match_v(models, normalize_path_v(paths.last()@)) {
            Some(u) => rest,
            None => rest.push(paths.last()@),
        }
    }
}

/// The models of a list of texts.
pub open spec fn texts_v(v: Seq<String>) -> Seq<Seq<char>> {
    v.map_values(|s: String| s@)
}

proof fn lemma_first_match_stays(ms: Seq<JsonV>, input: Seq<char>, k: int, j: int)
    requires
        0 <= k <= j <= ms.len(),
        first_match_v(ms.take(k), input) is Some,
    ensures
        first_match_v(ms.take(j), input) == first_match_v(ms.take(k), input),
    decreases j - k,
{
    if j > k {
        lemma_first_match_stays(ms, input, k, j - 1);
        assert(ms.take(j).drop_last() =~= ms.take(j - 1));
    }
}

fn first_match(models: &Vec<Json>, input: &str) -> (r: Option<String>)
    ensures
        opt_v(r) == first_match_v(vview(models@), input@),
{
    let ghost mv = vview(models@);
    let mut k: usize = 0;
    while k < models.len()
        invariant
            k <= models@.len(),
            mv == vview(models@),
            first_match_v(mv.take(k as int), input@) is None,
        decreases models@.len() - k,
    {
        let m = &models[k];
        assert(mv.take(k + 1).drop_last() =~= mv.take(k as int));
        assert(mv.take(k + 1).last() == m@);
        let fp = match str_at(m, "filePath") {
            Some(s) => normalize_path(s),
            None => {
                let e = String::new();
                normalize_path(e.as_str())
            },
        };
        if suffix_match(input, fp.as_str()) {
            if let Some(u) = node_uid(m) {
                proof {
                    lemma_first_match_stays(mv, input@, k + 1, mv.len() as int);
                    assert(mv.take(mv.len() as int) =~= mv);
                }
                return Some(owned(u));
            }
        }
        k += 1;
    }
    assert(mv.take(models@.len() as int) =~= mv);
    None
}

/// Resolves changed file paths to model unique ids: a path matches a model
/// when either normalized path ends with the other. Gives the ids found, in
/// order, and the paths that matched no model.
pub fn resolve_files_to_unique_ids(models: &Vec<Json>, file_paths: &Vec<String>) -> (r: (Vec<String>, Vec<String>))
    ensures
        texts_v(r.0@) == resolved_v(vview(models@), file_paths@),
        texts_v(r.1@) == unmatched_v(vview(models@), file_paths@),
{
    let ghost mv = vview(models@);
    let mut resolved: Vec<String> = Vec::new();
    let mut unmatched: Vec<String> = Vec::new();
    let mut i: usize = 0;
    while i < file_paths.len()
        invariant
            i <= file_paths@.len(),
            mv == vview(models@),
            texts_v(resolved@) == resolved_v(mv, file_paths@.take(i as int)),
            texts_v(unmatched@) == unmatched_v(mv, file_paths@.take(i as int)),
        decreases file_paths@.len() - i,
    {
        assert(file_paths@.take(i + 1).drop_last() =~= file_paths@.take(i as int));
        assert(file_paths@.take(i + 1).last() == file_paths@[i as int]);
        let normalized = normalize_path(file_paths[i].as_str());
        match first_match(models, normalized.as_str()) {
            Some(u) => {
                let ghost before = resolved@;
                resolved.push(u);
                assert(texts_v(resolved@) =~= texts_v(before).push(u@));
            },
            None => {
                let ghost before = unmatched@;
                unmatched.push(file_paths[i].clone());
                assert(texts_v(unmatched@) =~= texts_v(before).push(file_paths@[i as int]@));
            },
        }
        i += 1;
    }
    assert(file_paths@.take(file_paths@.len() as int) =~= file_paths@);
    (resolved, unmatched)
}

// ---------------------------------------------------------------------------
// Impacts within the environment
// ---------------------------------------------------------------------------

/// The public surface of a changed model: the public models downstream of
/// it, and the model itself when it is public (its own columns are what
/// consumers depend on).
pub fn public_surface(nodes: &Vec<Json>, unique_id: &str, public_ids: &Vec<String>) -> (r: Vec<String>)
    ensures
        distinct_texts(r@),
        text_set(r@) == public_below(vview(nodes@), set![unique_id@], text_set(public_ids@)).union(
            if text_set(public_ids@).contains(unique_id@) { set![unique_id@] } else { Set::empty() }),
{
    let roots: Vec<String> = vec![owned(unique_id)];
    assert(text_set(roots@) =~= set![unique_id@]) by {
        assert(roots@[0]@ == unique_id@);
    }
    let mut out = find_downstream_public(nodes, &roots, public_ids);
    let ghost below = text_set(out@);
    if has_text(public_ids, unique_id) {
        assert(!below.contains(unique_id@));
        add_text(&mut out, unique_id);
        assert(text_set(out@) =~= below.union(set![unique_id@]));
    } else {
        assert(text_set(out@) =~= below.union(Set::empty()));
    }
    out
}

/// The model that a column belongs to, or the empty text.
pub open spec fn column_model_v(col: JsonV) -> Seq<char> {
    match as_str_v(at_v(col, "nodeUniqueId"@)) {
        Some(s) => s,
        None => Seq::empty(),
    }
}

/// The impact row for a column of a changed model that lands in a public model.
pub open spec fn impact_row_v(source: Seq<char>, col: JsonV) -> JsonV {
    JsonV::Object(seq![
        ("column_id"@, at_v(col, "uniqueId"@)),
        ("column_name"@, at_v(col, "name"@)),
        ("consumers"@, JsonV::Array(Seq::empty())),
        ("depth"@, at_v(col, "depth"@)),
        ("public_model"@, JsonV::Str(column_model_v(col))),
        ("source_model"@, JsonV::Str(source)),
        ("transformation"@, at_v(col, "transformationType"@)),
    ])
}

/// The impact rows of the columns that belong to a model of the surface.
pub open spec fn impact_rows_v(source: Seq<char>, cols: Seq<JsonV>, surface: Set<Seq<char>>) -> Seq<JsonV>
    decreases cols.len(),
{
    if cols.len() == 0 {
        Seq::empty()
    } else {
        let rest = impact_rows_v(source, cols.drop_last(), surface);
        if surface.contains(column_model_v(cols.last())) {
            rest.push(impact_row_v(source, cols.last()))
        } else {
            rest
        }
    }
}

/// The impact row for one column.
fn impact_row(source: &str, col: &Json) -> (r: Json)
    ensures
        r@ == impact_row_v(source@, col@),
{
    let model = match str_at(col, "nodeUniqueId") {
        Some(s) => Json::str(s),
        None => {
            let e = String::new();
            Json::str(e.as_str())
        },
    };
    assert(model@ == JsonV::Str(column_model_v(col@)));
    let es = vec![
        entry("column_id", at(col, "uniqueId")),
        entry("column_name", at(col, "name")),
        entry("consumers", Json::empty_array()),
        entry("depth", at(col, "depth")),
        entry("public_model", model),
        entry("source_model", Json::str(source)),
        entry("transformation", at(col, "transformationType")),
    ];
    let r = object_of(es);
    assert(r@->Object_0 =~= impact_row_v(source@, col@)->Object_0);
    r
}

/// The impact rows for the columns of a changed model (as column lineage
/// returns them) that belong to one of the public models of `surface`.
pub fn impact_rows(source: &str, columns: &Vec<Json>, surface: &Vec<String>) -> (r: Vec<Json>)
    ensures
        vview(r@) == impact_rows_v(source@, vview(columns@), text_set(surface@)),
{
    let ghost cv = vview(columns@);
    let mut out: Vec<Json> = Vec::new();
    let mut i: usize = 0;
    while i < columns.len()
        invariant
            i <= columns@.len(),
            cv == vview(columns@),
            vview(out@) == impact_rows_v(source@, cv.take(i as int), text_set(surface@)),
        decreases columns@.len() - i,
    {
        let col = &columns[i];
        assert(cv.take(i + 1).drop_last() =~= cv.take(i as int));
        assert(cv.take(i + 1).last() == col@);
        let inside = match str_at(col, "nodeUniqueId") {
            Some(m) => has_text(surface, m),
            None => {
                let e = String::new();
                has_text(surface, e.as_str())
            },
        };
        if inside {
            let row = impact_row(source, col);
            let ghost before = out@;
            out.push(row);
            assert(vview(out@) =~= vview(before).push(row@));
        }
        i += 1;
    }
    assert(cv.take(columns@.len() as int) =~= cv);
    out
}

/// The public models named by impact rows.
pub open spec fn impacted_v(impacts: Seq<JsonV>) -> Set<Seq<char>> {
    Set::new(|m: Seq<char>| exists|i: int| 0 <= i < impacts.len() && #[trigger] as_str_v(at_v(impacts[i], "public_model"@)) == Some(m))
}

/// The public models that have at least one impact, each once, in order.
pub fn impacted_public_models(impacts: &Vec<Json>) -> (r: Vec<String>)
    ensures
        sorted_texts(r@),
        text_set(r@) == impacted_v(vview(impacts@)),
{
    let ghost iv = vview(impacts@);
    let mut out: Vec<String> = Vec::new();
    let mut i: usize = 0;
    while i < impacts.len()
        invariant
            i <= impacts@.len(),
            iv == vview(impacts@),
            sorted_texts(out@),
            text_set(out@) == impacted_v(iv.take(i as int)),
        decreases impacts@.len() - i,
    {
        let ghost before = text_set(out@);
        assert(iv[i as int] == impacts@[i as int]@);
        if let Some(m) = str_at(&impacts[i], "public_model") {
            insert_sorted(&mut out, m);
        }
        assert(text_set(out@) =~= impacted_v(iv.take(i + 1))) by {
            assert forall|m: Seq<char>| impacted_v(iv.take(i + 1)).contains(m) implies text_set(out@).contains(m) by {
                let j = choose|j: int| 0 <= j < i + 1 && #[trigger] as_str_v(at_v(iv.take(i + 1)[j], "public_model"@)) == Some(m);
                if j < i {
                    assert(iv.take(i as int)[j] == iv.take(i + 1)[j]);
                    assert(impacted_v(iv.take(i as int)).contains(m));
                }
            }
            assert forall|m: Seq<char>| text_set(out@).contains(m) implies impacted_v(iv.take(i + 1)).contains(m) by {
                if before.contains(m) {
                    let j = choose|j: int| 0 <= j < i && #[trigger] as_str_v(at_v(iv.take(i as int)[j], "public_model"@)) == Some(m);
                    assert(iv.take(i + 1)[j] == iv.take(i as int)[j]);
                } else {
                    assert(iv.take(i + 1)[i as int] == iv[i as int]);
                    assert(as_str_v(at_v(iv.take(i + 1)[i as int], "public_model"@)) == Some(m));
                }
            }
        }
        i += 1;
    }
    assert(iv.take(impacts@.len() as int) =~= iv);
    out
}

// ---------------------------------------------------------------------------
// Consumers in other environments
// ---------------------------------------------------------------------------

/// The numeric ids of a list of documents, in order, skipping those without one.
pub open spec fn ids_v(items: Seq<JsonV>) -> Seq<u64>
    decreases items.len(),
{
    if items.len() == 0 {
        Seq::empty()
    } else {
        let rest = ids_v(items.drop_last());
        match as_u64_v(at_v(items.last(), "id"@)) {
            Some(id) => rest.push(id),
            None => rest,
        }
    }
}

/// The ids of the projects of an account, skipping projects without one.
pub fn project_ids(projects: &Vec<Json>) -> (r: Vec<u64>)
    ensures
        r@ == ids_v(vview(projects@)),
{
    let ghost pv = vview(projects@);
    let mut out: Vec<u64> = Vec::new();
    let mut i: usize = 0;
    while i < projects.len()
        invariant
            i <= projects@.len(),
            pv == vview(projects@),
            out@ == ids_v(pv.take(i as int)),
        decreases projects@.len() - i,
    {
        assert(pv.take(i + 1).drop_last() =~= pv.take(i as int));
        assert(pv.take(i + 1).last() == projects@[i as int]@);
        if let Some(id) = u64_at(&projects[i], "id") {
            out.push(id);
        }
        i += 1;
    }
    assert(pv.take(projects@.len() as int) =~= pv);
    out
}

/// The deployment environments of a list, in order, except `exclude`.
pub open spec fn deployment_ids_v(envs: Seq<JsonV>, exclude: u64) -> Seq<u64>
    decreases envs.len(),
{
    if envs.len() == 0 {
        Seq::empty()
    } else {
        let rest = deployment_ids_v(envs.drop_last(), exclude);
        let e = envs.last();
        if as_str_v(at_v(e, "type"@)) == Some("deployment"@) && as_u64_v(at_v(e, "id"@)) is Some
            && as_u64_v(at_v(e, "id"@))->0 != exclude {
            rest.push(as_u64_v(at_v(e, "id"@))->0)
        } else {
            rest
        }
    }
}

/// The ids of the deployment environments of a project, except `exclude_env`.
pub fn deployment_env_ids(envs: &Vec<Json>, exclude_env: u64) -> (r: Vec<u64>)
    ensures
        r@ == deployment_ids_v(vview(envs@), exclude_env),
{
    let ghost ev = vview(envs@);
    let mut out: Vec<u64> = Vec::new();
    let mut i: usize = 0;
    while i < envs.len()
        invariant
            i <= envs@.len(),
            ev == vview(envs@),
            out@ == deployment_ids_v(ev.take(i as int), exclude_env),
        decreases envs@.len() - i,
    {
        let e = &envs[i];
        assert(ev.take(i + 1).drop_last() =~= ev.take(i as int));
        assert(ev.take(i + 1).last() == e@);
        let deployment = match str_at(e, "type") {
            Some(t) => str_eq(t, "deployment"),
            None => false,
        };
        if deployment {
            if let Some(id) = u64_at(e, "id") {
                if id != exclude_env {
                    out.push(id);
                }
            }
        }
        i += 1;
    }
    assert(ev.take(envs@.len() as int) =~= ev);
    out
}

/// The variables of the query for the models of an environment that
/// declare a public model as a parent.
pub open spec fn consumer_vars_v(environment_id: u64, public_parent: Seq<char>) -> JsonV {
    JsonV::Object(seq![
        ("environmentId"@, u64_v(environment_id)),
        ("filter"@, JsonV::Object(seq![
            ("publicParents"@, JsonV::Array(seq![JsonV::Str(public_parent)])),
            ("types"@, JsonV::Array(seq![JsonV::Str("Model"@)])),
        ])),
        ("first"@, u64_v(100)),
    ])
}

/// The variables for looking up the consumers of one public model.
pub fn consumer_vars(environment_id: u64, public_parent_id: &str) -> (r: Json)
    ensures
        r@ == consumer_vars_v(environment_id, public_parent_id@),
{
    let parents_v = vec![Json::str(public_parent_id)];
    let types_v = vec![Json::str("Model")];
    assert(vview(parents_v@) =~= seq![JsonV::Str(public_parent_id@)]);
    assert(vview(types_v@) =~= seq![JsonV::Str("Model"@)]);
    let filter = object_of(vec![
        entry("publicParents", array_of(parents_v)),
        entry("types", array_of(types_v)),
    ]);
    let r = object_of(vec![
        entry("environmentId", Json::from_u64(environment_id)),
        entry("filter", filter),
        entry("first", Json::from_u64(100)),
    ]);
    assert(filter@->Object_0 =~= consumer_vars_v(environment_id, public_parent_id@)->Object_0[1].1->Object_0);
    assert(r@->Object_0 =~= consumer_vars_v(environment_id, public_parent_id@)->Object_0);
    r
}

/// The entry recorded for a consumer model found in an environment.
pub open spec fn consumer_entry_v(node: JsonV, environment_id: u64) -> JsonV {
    JsonV::Object(seq![
        ("environment_id"@, u64_v(environment_id)),
        ("model"@, at_v(node, "uniqueId"@)),
        ("project_id"@, at_v(node, "projectId"@)),
    ])
}

/// The consumer entries of an answer to the consumer query.
pub open spec fn consumer_entries_v(data: JsonV, environment_id: u64) -> Seq<JsonV> {
    let nodes = nodes_of_v(path_v(data, seq!["environment"@, "applied"@, "resources"@, "edges"@]));
    Seq::new(nodes.len(), |i: int| consumer_entry_v(nodes[i], environment_id))
}

/// The consumers that an answer to the consumer query lists, each as
/// `{environment_id, model, project_id}`.
pub fn consumer_entries(data: &Json, environment_id: u64) -> (r: Vec<Json>)
    ensures
        vview(r@) == consumer_entries_v(data@, environment_id),
{
    let path: [&str; 4] = ["environment", "applied", "resources", "edges"];
    let edges = extract_path(data, &path);
    assert(keys_v(path@) =~= seq!["environment"@, "applied"@, "resources"@, "edges"@]);
    let nodes = extract_nodes(&edges);
    let mut out: Vec<Json> = Vec::new();
    let mut i: usize = 0;
    while i < nodes.len()
        invariant
            i <= nodes@.len(),
            out@.len() == i,
            forall|k: int| 0 <= k < i ==> (#[trigger] out@[k])@ == consumer_entry_v(nodes@[k]@, environment_id),
        decreases nodes@.len() - i,
    {
        let n = &nodes[i];
        let e = object_of(vec![
            entry("environment_id", Json::from_u64(environment_id)),
            entry("model", at(n, "uniqueId")),
            entry("project_id", at(n, "projectId")),
        ]);
        assert(e@->Object_0 =~= consumer_entry_v(n@, environment_id)->Object_0);
        out.push(e);
        i += 1;
    }
    assert(vview(out@) =~= consumer_entries_v(data@, environment_id));
    out
}

/// The consumers recorded under each public model.
pub open spec fn table_v(t: Seq<(String, Vec<Json>)>) -> Seq<(Seq<char>, Seq<JsonV>)> {
    Seq::new(t.len(), |i: int| (t[i].0@, vview(t[i].1@)))
}

/// The consumers recorded under a public model; none when it has no entry.
pub open spec fn lookup_v(t: Seq<(Seq<char>, Seq<JsonV>)>, key: Seq<char>) -> Seq<JsonV>
    decreases t.len(),
{
    if t.len() == 0 {
        Seq::empty()
    } else if t.last().0 == key {
        t.last().1
    } else {
        lookup_v(t.drop_last(), key)
    }
}

/// No public model has two entries.
pub open spec fn table_ok(t: Seq<(Seq<char>, Seq<JsonV>)>) -> bool {
    forall|i: int, j: int| 0 <= i < j < t.len() ==> (#[trigger] t[i]).0 != (#[trigger] t[j]).0
}

proof fn lemma_lookup_at(t: Seq<(Seq<char>, Seq<JsonV>)>, k: int)
    requires
        table_ok(t),
        0 <= k < t.len(),
    ensures
        lookup_v(t, t[k].0) == t[k].1,
    decreases t.len(),
{
    if k < t.len() - 1 {
        assert(t.last().0 != t[k].0) by {
            assert(t[k].0 != t[t.len() - 1].0);
        }
        assert(t.drop_last()[k] == t[k]);
        lemma_lookup_at(t.drop_last(), k);
    }
}

proof fn lemma_lookup_none(t: Seq<(Seq<char>, Seq<JsonV>)>, key: Seq<char>)
    requires
        forall|k: int| 0 <= k < t.len() ==> (#[trigger] t[k]).0 != key,
    ensures
        lookup_v(t, key) == Seq::<JsonV>::empty(),
    decreases t.len(),
{
    if t.len() > 0 {
        assert(t.last().0 != key);
        lemma_lookup_none(t.drop_last(), key);
    }
}

/// What comes after the impact rows are in, for the consumer lookup.
#[derive(Debug, PartialEq)]
pub enum ConsumerPlan {
    /// No public model is impacted: there is nothing to look up.
    Done,
    /// No deployment environments were given: they are found first.
    DiscoverEnvironments,
    /// Look up the consumers of each impacted public model in each
    /// environment: the pairs, environment by environment.
    Query(Vec<(u64, String)>),
}

/// The (environment, public model) pairs to query, environment by
/// environment and, within one, in the order of the models.
pub open spec fn query_pairs_v(envs: Seq<u64>, models: Seq<Seq<char>>) -> Seq<(u64, Seq<char>)>
    decreases envs.len(),
{
    if envs.len() == 0 {
        Seq::empty()
    } else {
        query_pairs_v(envs.drop_last(), models) + models.map_values(|m: Seq<char>| (envs.last(), m))
    }
}

/// Decides the consumer lookup: nothing when no public model is impacted;
/// finding the deployment environments first when none are given; else the
/// queries to make. A query that fails is skipped; what the others find is
/// recorded with `record_consumers`.
pub fn consumer_plan(impacted: &Vec<String>, envs: &Vec<u64>) -> (r: ConsumerPlan)
    ensures
        impacted@.len() == 0 ==> r == ConsumerPlan::Done,
        impacted@.len() > 0 && envs@.len() == 0 ==> r == ConsumerPlan::DiscoverEnvironments,
        impacted@.len() > 0 && envs@.len() > 0 ==> (r matches ConsumerPlan::Query(q)
            && q@.len() == query_pairs_v(envs@, texts_v(impacted@)).len()
            && forall|k: int| 0 <= k < q@.len() ==> (#[trigger] q@[k]).0 == query_pairs_v(envs@, texts_v(impacted@))[k].0
                && q@[k].1@ == query_pairs_v(envs@, texts_v(impacted@))[k].1),
{
    if impacted.len() == 0 {
        return ConsumerPlan::Done;
    }
    if envs.len() == 0 {
        return ConsumerPlan::DiscoverEnvironments;
    }
    let ghost ms = texts_v(impacted@);
    let mut q: Vec<(u64, String)> = Vec::new();
    let mut e: usize = 0;
    while e < envs.len()
        invariant
            e <= envs@.len(),
            ms == texts_v(impacted@),
            q@.len() == query_pairs_v(envs@.take(e as int), ms).len(),
            forall|k: int| 0 <= k < q@.len() ==> (#[trigger] q@[k]).0 == query_pairs_v(envs@.take(e as int), ms)[k].0
                && q@[k].1@ == query_pairs_v(envs@.take(e as int), ms)[k].1,
        decreases envs@.len() - e,
    {
        let ghost before = query_pairs_v(envs@.take(e as int), ms);
        assert(envs@.take(e + 1).drop_last() =~= envs@.take(e as int));
        assert(envs@.take(e + 1).last() == envs@[e as int]);
        let ghost after = query_pairs_v(envs@.take(e + 1), ms);
        assert(after == before + ms.map_values(|m: Seq<char>| (envs@[e as int], m)));
        let mut m: usize = 0;
        while m < impacted.len()
            invariant
                m <= impacted@.len(),
                e < envs@.len(),
                ms == texts_v(impacted@),
                after == before + ms.map_values(|m: Seq<char>| (envs@[e as int], m)),
                q@.len() == before.len() + m,
                forall|k: int| 0 <= k < q@.len() ==> (#[trigger] q@[k]).0 == after[k].0 && q@[k].1@ == after[k].1,
            decreases impacted@.len() - m,
        {
            q.push((envs[e], impacted[m].clone()));
            m += 1;
        }
        e += 1;
    }
    assert(envs@.take(envs@.len() as int) =~= envs@);
    ConsumerPlan::Query(q)
}

/// Records the consumers found for a public model after those already
/// recorded; nothing is recorded when none were found.
pub fn record_consumers(table: &mut Vec<(String, Vec<Json>)>, public_model: &str, found: Vec<Json>)
    requires
        table_ok(table_v(old(table)@)),
    ensures
        table_ok(table_v(final(table)@)),
        lookup_v(table_v(final(table)@), public_model@) == lookup_v(table_v(old(table)@), public_model@) + vview(found@),
        forall|key: Seq<char>| key != public_model@ ==>
            #[trigger] lookup_v(table_v(final(table)@), key) == lookup_v(table_v(old(table)@), key),
{
    let ghost t0 = table_v(table@);
    if found.len() == 0 {
        assert(vview(found@) =~= Seq::<JsonV>::empty());
        assert(lookup_v(t0, public_model@) + vview(found@) =~= lookup_v(t0, public_model@));
        return;
    }
    let mut k: usize = 0;
    while k < table.len()
        invariant
            k <= table@.len(),
            t0 == table_v(table@),
            table@ == old(table)@,
            table_ok(t0),
            found@.len() > 0,
            forall|x: int| 0 <= x < k ==> (#[trigger] t0[x]).0 != public_model@,
        decreases table@.len() - k,
    {
        if str_eq(table[k].0.as_str(), public_model) {
            let ghost fv = found@;
            let mut found = found;
            let (key, mut list) = table.remove(k);
            let ghost old_list = list@;
            list.append(&mut found);
            let ghost new_list = list@;
            table.insert(k, (key, list));
            proof {
                let t1 = table_v(table@);
                assert(t1 =~= t0.update(k as int, (public_model@, vview(new_list))));
                assert(vview(new_list) =~= vview(old_list) + vview(fv));
                lemma_lookup_at(t0, k as int);
                assert(table_ok(t1)) by {
                    assert forall|i: int, j: int| 0 <= i < j < t1.len() implies (#[trigger] t1[i]).0 != (#[trigger] t1[j]).0 by {
                        assert(t1[i].0 == t0[i].0 && t1[j].0 == t0[j].0);
                    }
                }
                lemma_lookup_at(t1, k as int);
                assert forall|key: Seq<char>| key != public_model@ implies
                    #[trigger] lookup_v(t1, key) == lookup_v(t0, key) by {
                    if exists|x: int| 0 <= x < t0.len() && (#[trigger] t0[x]).0 == key {
                        let x = choose|x: int| 0 <= x < t0.len() && (#[trigger] t0[x]).0 == key;
                        lemma_lookup_at(t0, x);
                        assert(t1[x] == t0[x]);
                        lemma_lookup_at(t1, x);
                    } else {
                        lemma_lookup_none(t0, key);
                        assert forall|x: int| 0 <= x < t1.len() implies (#[trigger] t1[x]).0 != key by {
                            assert(t1[x].0 == t0[x].0);
                        }
                        lemma_lookup_none(t1, key);
                    }
                }
            }
            return;
        }
        k += 1;
    }
    table.push((owned(public_model), found));
    proof {
        let t1 = table_v(table@);
        assert(t1 =~= t0.push((public_model@, vview(found@))));
        lemma_lookup_none(t0, public_model@);
        assert(t1.drop_last() =~= t0);
        assert(lookup_v(t0, public_model@) + vview(found@) =~= vview(found@));
        assert forall|i: int, j: int| 0 <= i < j < t1.len() implies (#[trigger] t1[i]).0 != (#[trigger] t1[j]).0 by {
            if j < t0.len() {
                assert(t1[i] == t0[i] && t1[j] == t0[j]);
            } else {
                assert(t1[i] == t0[i]);
            }
        }
    }
}

/// The impact row with its consumers filled in, when any were found.
pub open spec fn with_consumers_v(impact: JsonV, t: Seq<(Seq<char>, Seq<JsonV>)>) -> JsonV {
    let pm = match as_str_v(at_v(impact, "public_model"@)) { Some(s) => s, None => Seq::empty() };
    let found = lookup_v(t, pm);
    if found.len() > 0 {
        set_field_v(impact, "consumers"@, JsonV::Array(found))
    } else {
        impact
    }
}

/// An impact row's consumers are those recorded under its public model:
/// when any are recorded under it, the row carries exactly them and keeps
/// its other fields; when none are, the row is left as it is.
pub proof fn law_consumers_follow_public_model(impact: JsonV, t: Seq<(Seq<char>, Seq<JsonV>)>, pm: Seq<char>, other: Seq<char>)
    requires
        impact matches JsonV::Object(es) && keys_sorted(es),
        as_str_v(at_v(impact, "public_model"@)) == Some(pm),
    ensures
        lookup_v(t, pm).len() > 0 ==> at_v(with_consumers_v(impact, t), "consumers"@) == JsonV::Array(lookup_v(t, pm)),
        lookup_v(t, pm).len() > 0 && other != "consumers"@ ==> at_v(with_consumers_v(impact, t), other) == at_v(impact, other),
        lookup_v(t, pm).len() == 0 ==> with_consumers_v(impact, t) == impact,
{
    let es = impact->Object_0;
    lemma_obj_set(es, "consumers"@, JsonV::Array(lookup_v(t, pm)));
}

fn lookup(table: &Vec<(String, Vec<Json>)>, key: &str) -> (r: Vec<Json>)
    ensures
        vview(r@) == lookup_v(table_v(table@), key@),
{
    let ghost t = table_v(table@);
    let mut k: usize = table.len();
    assert(t.take(k as int) =~= t);
    while k > 0
        invariant
            k <= table@.len(),
            t == table_v(table@),
            lookup_v(t, key@) == lookup_v(t.take(k as int), key@),
        decreases k,
    {
        assert(t.take(k as int).drop_last() =~= t.take(k - 1));
        assert(t.take(k as int).last() == t[k - 1]);
        if str_eq(table[k - 1].0.as_str(), key) {
            let mut out: Vec<Json> = Vec::new();
            let mut i: usize = 0;
            let list = &table[k - 1].1;
            while i < list.len()
                invariant
                    i <= list@.len(),
                    out@.len() == i,
                    forall|x: int| 0 <= x < i ==> (#[trigger] out@[x])@ == list@[x]@,
                decreases list@.len() - i,
            {
                out.push(clone_json(&list[i]));
                i += 1;
            }
            assert(vview(out@) =~= vview(list@));
            return out;
        }
        k -= 1;
    }
    assert(t.take(0) =~= Seq::<(Seq<char>, Seq<JsonV>)>::empty());
    Vec::new()
}

/// Fills in the consumers of each impact row from the consumers recorded
/// under its public model.
pub fn attach_consumers(impacts: Vec<Json>, table: &Vec<(String, Vec<Json>)>) -> (r: Vec<Json>)
    ensures
        r@.len() == impacts@.len(),
        forall|i: int| 0 <= i < r@.len() ==> (#[trigger] r@[i])@ == with_consumers_v(impacts@[i]@, table_v(table@)),
{
    let ghost iv = impacts@;
    let mut out: Vec<Json> = Vec::new();
    let mut rest = impacts;
    let mut i: usize = 0;
    let n = rest.len();
    while i < n
        invariant
            n == iv.len(),
            i <= n,
            rest@.len() == n,
            forall|x: int| i <= x < n ==> rest@[x] == iv[x],
            out@.len() == i,
            forall|x: int| 0 <= x < i ==> (#[trigger] out@[x])@ == with_consumers_v(iv[x]@, table_v(table@)),
        decreases n - i,
    {
        let impact = clone_json(&rest[i]);
        let pm = match str_at(&impact, "public_model") {
            Some(s) => owned(s),
            None => String::new(),
        };
        let found = lookup(table, pm.as_str());
        if found.len() > 0 {
            let updated = set_field(impact, "consumers", array_of(found));
            out.push(updated);
        } else {
            out.push(impact);
        }
        i += 1;
    }
    out
}

/// The consumer models listed by impact rows.
pub open spec fn consumer_models_v(impacts: Seq<JsonV>) -> Set<Seq<char>> {
    Set::new(|m: Seq<char>| exists|i: int, j: int| 0 <= i < impacts.len()
        && as_array_v(at_v(impacts[i], "consumers"@)) is Some
        && 0 <= j < as_array_v(at_v(impacts[i], "consumers"@))->0.len()
        && #[trigger] as_str_v(at_v(as_array_v(at_v(impacts[i], "consumers"@))->0[j], "model"@)) == Some(m))
}

/// The consumer models of other projects that the impact rows list, each once.
pub fn cross_project_consumers(impacts: &Vec<Json>) -> (r: Vec<String>)
    ensures
        distinct_texts(r@),
        text_set(r@) == consumer_models_v(vview(impacts@)),
{
    let ghost iv = vview(impacts@);
    let mut out: Vec<String> = Vec::new();
    let mut i: usize = 0;
    while i < impacts.len()
        invariant
            i <= impacts@.len(),
            iv == vview(impacts@),
            distinct_texts(out@),
            text_set(out@) == consumer_models_v(iv.take(i as int)),
        decreases impacts@.len() - i,
    {
        let ghost t_i = iv.take(i as int);
        let ghost t_n = iv.take(i + 1);
        assert(iv[i as int] == impacts@[i as int]@);
        assert forall|x: int| 0 <= x < i implies t_n[x] == #[trigger] t_i[x] by {}
        assert(t_n[i as int] == iv[i as int]);
        match array_at(&impacts[i], "consumers") {
            Some(cs) => {
                let ghost cv = json_view(Json::Array(*cs))->Array_0;
                proof { lemma_array_view(*cs); }
                let mut j: usize = 0;
                while j < cs.len()
                    invariant
                        j <= cs@.len(),
                        cv.len() == cs@.len(),
                        forall|x: int| 0 <= x < cs@.len() ==> cv[x] == (#[trigger] cs@[x])@,
                        as_array_v(at_v(t_n[i as int], "consumers"@)) == Some(cv),
                        forall|x: int| 0 <= x < i ==> t_n[x] == #[trigger] t_i[x],
                        distinct_texts(out@),
                        text_set(out@) == consumer_models_v(t_i).union(Set::new(|m: Seq<char>| exists|y: int| 0 <= y < j
                            && #[trigger] as_str_v(at_v(cv[y], "model"@)) == Some(m))),
                    decreases cs@.len() - j,
                {
                    let ghost before = text_set(out@);
                    if let Some(m) = str_at(&cs[j], "model") {
                        add_text(&mut out, m);
                    }
                    assert(text_set(out@) =~= consumer_models_v(t_i).union(Set::new(|m: Seq<char>| exists|y: int| 0 <= y < j + 1
                        && #[trigger] as_str_v(at_v(cv[y], "model"@)) == Some(m)))) by {
                        assert forall|m: Seq<char>| (exists|y: int| 0 <= y < j + 1 && #[trigger] as_str_v(at_v(cv[y], "model"@)) == Some(m))
                            implies text_set(out@).contains(m) by {
                            let y = choose|y: int| 0 <= y < j + 1 && #[trigger] as_str_v(at_v(cv[y], "model"@)) == Some(m);
                            if y < j {
                                assert(before.contains(m));
                            }
                        }
                    }
                    j += 1;
                }
                assert(text_set(out@) =~= consumer_models_v(t_n)) by {
                    assert forall|m: Seq<char>| consumer_models_v(t_n).contains(m) implies text_set(out@).contains(m) by {
                        let (x, y) = choose|x: int, y: int| 0 <= x < t_n.len()
                            && as_array_v(at_v(t_n[x], "consumers"@)) is Some
                            && 0 <= y < as_array_v(at_v(t_n[x], "consumers"@))->0.len()
                            && #[trigger] as_str_v(at_v(as_array_v(at_v(t_n[x], "consumers"@))->0[y], "model"@)) == Some(m);
                        if x < i {
                            assert(t_n[x] == t_i[x]);
                            assert(consumer_models_v(t_i).contains(m));
                        } else {
                            assert(as_str_v(at_v(cv[y], "model"@)) == Some(m));
                        }
                    }
                    assert forall|m: Seq<char>| text_set(out@).contains(m) implies consumer_models_v(t_n).contains(m) by {
                        if consumer_models_v(t_i).contains(m) {
                            let (x, y) = choose|x: int, y: int| 0 <= x < t_i.len()
                                && as_array_v(at_v(t_i[x], "consumers"@)) is Some
                                && 0 <= y < as_array_v(at_v(t_i[x], "consumers"@))->0.len()
                                && #[trigger] as_str_v(at_v(as_array_v(at_v(t_i[x], "consumers"@))->0[y], "model"@)) == Some(m);
                            assert(t_n[x] == t_i[x]);
                            assert(as_str_v(at_v(as_array_v(at_v(t_n[x], "consumers"@))->0[y], "model"@)) == Some(m));
                        } else {
                            let y = choose|y: int| 0 <= y < cs@.len() && #[trigger] as_str_v(at_v(cv[y], "model"@)) == Some(m);
                            assert(as_str_v(at_v(as_array_v(at_v(t_n[i as int], "consumers"@))->0[y], "model"@)) == Some(m));
                        }
                    }
                }
            },
            None => {
                assert(text_set(out@) =~= consumer_models_v(t_n)) by {
                    assert forall|m: Seq<char>| consumer_models_v(t_n).contains(m) implies text_set(out@).contains(m) by {
                        let (x, y) = choose|x: int, y: int| 0 <= x < t_n.len()
                            && as_array_v(at_v(t_n[x], "consumers"@)) is Some
                            && 0 <= y < as_array_v(at_v(t_n[x], "consumers"@))->0.len()
                            && #[trigger] as_str_v(at_v(as_array_v(at_v(t_n[x], "consumers"@))->0[y], "model"@)) == Some(m);
                        assert(x < i);
                        assert(t_n[x] == t_i[x]);
                        assert(consumer_models_v(t_i).contains(m));
                    }
                    assert forall|m: Seq<char>| text_set(out@).contains(m) implies consumer_models_v(t_n).contains(m) by {
                        let (x, y) = choose|x: int, y: int| 0 <= x < t_i.len()
                            && as_array_v(at_v(t_i[x], "consumers"@)) is Some
                            && 0 <= y < as_array_v(at_v(t_i[x], "consumers"@))->0.len()
                            && #[trigger] as_str_v(at_v(as_array_v(at_v(t_i[x], "consumers"@))->0[y], "model"@)) == Some(m);
                        assert(t_n[x] == t_i[x]);
                        assert(as_str_v(at_v(as_array_v(at_v(t_n[x], "consumers"@))->0[y], "model"@)) == Some(m));
                    }
                }
            },
        }
        i += 1;
    }
    assert(iv.take(impacts@.len() as int) =~= iv);
    out
}

/// The impact report: the impact rows and a summary of them.
pub open spec fn report_v(impacts: Seq<JsonV>, impacted: Seq<String>, without_public: Seq<String>, consumers: Seq<String>) -> JsonV {
    JsonV::Object(seq![
        ("impacts"@, JsonV::Array(impacts)),
        ("summary"@, JsonV::Object(seq![
            ("cross_project_consumers"@, str_array_v(consumers)),
            ("models_without_public_downstream"@, str_array_v(without_public)),
            ("public_models_with_impact"@, str_array_v(impacted)),
            ("total_impacts"@, u64_v(impacts.len() as u64)),
        ])),
    ])
}

/// Assembles the impact report from the impact rows, the impacted public
/// models, the changed models with no public model downstream, and the
/// consumer models found.
pub fn impact_report(impacts: Vec<Json>, impacted: &Vec<String>, without_public: &Vec<String>, consumers: &Vec<String>) -> (r: Json)
    ensures
        r@ == report_v(vview(impacts@), impacted@, without_public@, consumers@),
        report_shape(r@),
{
    let total = impacts.len() as u64;
    let ghost iv = vview(impacts@);
    let summary = object_of(vec![
        entry("cross_project_consumers", string_array(consumers)),
        entry("models_without_public_downstream", string_array(without_public)),
        entry("public_models_with_impact", string_array(impacted)),
        entry("total_impacts", Json::from_u64(total)),
    ]);
    let rows = array_of(impacts);
    let r = object_of(vec![entry("impacts", rows), entry("summary", summary)]);
    assert(summary@->Object_0 =~= report_v(iv, impacted@, without_public@, consumers@)->Object_0[1].1->Object_0);
    assert(r@->Object_0 =~= report_v(iv, impacted@, without_public@, consumers@)->Object_0);
    proof {
        reveal_strlit("impacts");
        reveal_strlit("summary");
        assert(chars_lt("impacts"@, "summary"@));
        assert(obj_lookup(r@->Object_0, "impacts"@) is Some);
        assert(r@->Object_0[0].0 != "summary"@);
        crate::json::lemma_lookup_at(r@->Object_0, "summary"@, 1);
    }
    r
}

// ---------------------------------------------------------------------------
// The table of consumers
// ---------------------------------------------------------------------------

/// What a row of the consumer table is keyed by: consumer model, public
/// model, project id and environment id, as texts.
pub type KeyV = (Seq<char>, Seq<char>, Seq<char>, Seq<char>);

/// A key of the consumer table.
pub type Key = (String, String, String, String);

/// The model of a key.
pub open spec fn key_v(k: Key) -> KeyV {
    (k.0@, k.1@, k.2@, k.3@)
}

/// A text, or the empty text.
pub open spec fn text_or_empty(o: Option<Seq<char>>) -> Seq<char> {
    match o {
        Some(s) => s,
        None => Seq::empty(),
    }
}

/// A consumer's project id as text: a string as it is, a number in decimal.
pub open spec fn project_text_v(c: JsonV) -> Seq<char> {
    match as_str_v(at_v(c, "project_id"@)) {
        Some(s) => s,
        None => match as_u64_v(at_v(c, "project_id"@)) {
            Some(n) => spec_decimal(n as nat),
            None => Seq::empty(),
        },
    }
}

/// A consumer's environment id as text.
pub open spec fn env_text_v(c: JsonV) -> Seq<char> {
    match as_u64_v(at_v(c, "environment_id"@)) {
        Some(n) => spec_decimal(n as nat),
        None => Seq::empty(),
    }
}

/// The key of a consumer of a public model.
pub open spec fn consumer_key_v(c: JsonV, public_model: Seq<char>) -> KeyV {
    (text_or_empty(as_str_v(at_v(c, "model"@))), public_model, project_text_v(c), env_text_v(c))
}

/// The keys of the consumers of one impact row.
pub open spec fn impact_keys_v(impact: JsonV) -> Seq<KeyV> {
    let pm = text_or_empty(as_str_v(at_v(impact, "public_model"@)));
    match as_array_v(at_v(impact, "consumers"@)) {
        Some(cs) => Seq::new(cs.len(), |j: int| consumer_key_v(cs[j], pm)),
        None => Seq::empty(),
    }
}

/// The keys of the consumers of all impact rows, in order.
pub open spec fn all_keys_v(impacts: Seq<JsonV>) -> Seq<KeyV>
    decreases impacts.len(),
{
    if impacts.len() == 0 {
        Seq::empty()
    } else {
        all_keys_v(impacts.drop_last()) + impact_keys_v(impacts.last())
    }
}

/// The impact rows of a report.
pub open spec fn report_impacts_v(report: JsonV) -> Seq<JsonV> {
    match as_array_v(at_v(report, "impacts"@)) {
        Some(a) => a,
        None => Seq::empty(),
    }
}

/// How often a key occurs.
pub open spec fn count_v(s: Seq<KeyV>, k: KeyV) -> nat
    decreases s.len(),
{
    if s.len() == 0 {
        0
    } else {
        count_v(s.drop_last(), k) + if s.last() == k { 1nat } else { 0nat }
    }
}

/// The row for a (consumer, public model) pair and its number of columns.
pub open spec fn count_row_v(k: KeyV, n: nat) -> JsonV {
    JsonV::Object(seq![
        ("consumer_model"@, JsonV::Str(k.0)),
        ("environment_id"@, JsonV::Str(k.3)),
        ("impacted_columns"@, u64_v(n as u64)),
        ("project_id"@, JsonV::Str(k.2)),
        ("public_model"@, JsonV::Str(k.1)),
    ])
}

/// The consumer model a row is for.
pub open spec fn row_consumer_v(row: JsonV) -> Seq<char> {
    text_or_empty(as_str_v(at_v(row, "consumer_model"@)))
}

/// The row stands for some key with how often that key occurs.
pub open spec fn is_count_row(row: JsonV, keys: Seq<KeyV>) -> bool {
    exists|k: KeyV| keys.contains(k) && row == #[trigger] count_row_v(k, count_v(keys, k))
}

/// Some row stands for the key with how often it occurs.
pub open spec fn has_count_row(rows: Seq<JsonV>, k: KeyV, keys: Seq<KeyV>) -> bool {
    exists|i: int| 0 <= i < rows.len() && #[trigger] rows[i] == count_row_v(k, count_v(keys, k))
}

/// The rows of the consumer table: one per key, with how often the key
/// occurs, in order of consumer model (rows for the same consumer model
/// come in no particular order).
pub open spec fn count_rows_ok(rows: Seq<JsonV>, keys: Seq<KeyV>) -> bool {
    &&& forall|i: int| 0 <= i < rows.len() ==> #[trigger] is_count_row(rows[i], keys)
    &&& forall|k: KeyV| keys.contains(k) ==> #[trigger] has_count_row(rows, k, keys)
    &&& forall|i: int, j: int| 0 <= i < j < rows.len() ==> (#[trigger] rows[i]) != (#[trigger] rows[j])
    &&& forall|i: int, j: int| 0 <= i < j < rows.len() ==> !chars_lt(row_consumer_v(#[trigger] rows[j]), row_consumer_v(#[trigger] rows[i]))
}

/// How many impact rows name a public model.
pub open spec fn model_count_v(impacts: Seq<JsonV>, m: Seq<char>) -> nat
    decreases impacts.len(),
{
    if impacts.len() == 0 {
        0
    } else {
        model_count_v(impacts.drop_last(), m)
            + if as_str_v(at_v(impacts.last(), "public_model"@)) == Some(m) { 1nat } else { 0nat }
    }
}

/// The row for a public model when no consumer was found.
pub open spec fn model_row_v(m: Seq<char>, n: nat) -> JsonV {
    JsonV::Object(seq![
        ("consumers"@, JsonV::Str("none found"@)),
        ("impacted_columns"@, u64_v(n as u64)),
        ("public_model"@, JsonV::Str(m)),
    ])
}

/// The list of impacted public models in a report's summary.
pub open spec fn public_list_v(report: JsonV) -> Seq<JsonV> {
    match as_array_v(at_v(at_v(report, "summary"@), "public_models_with_impact"@)) {
        Some(a) => a,
        None => Seq::empty(),
    }
}

/// One row per listed public model, with its number of impact rows.
pub open spec fn model_rows_of(ms: Seq<JsonV>, impacts: Seq<JsonV>) -> Seq<JsonV> {
    Seq::new(ms.len(), |i: int| model_row_v(text_or_empty(as_str_v(ms[i])),
        model_count_v(impacts, text_or_empty(as_str_v(ms[i])))))
}

/// The rows shown when no consumer was found: one per impacted public
/// model, with its number of impacted columns.
pub open spec fn model_rows_v(report: JsonV) -> Seq<JsonV> {
    model_rows_of(public_list_v(report), report_impacts_v(report))
}

/// The pairs counted so far, as a table.
pub open spec fn counts_ok(t: Seq<(KeyV, nat)>, keys: Seq<KeyV>) -> bool {
    &&& forall|i: int, j: int| 0 <= i < j < t.len() ==> (#[trigger] t[i]).0 != (#[trigger] t[j]).0
    &&& forall|i: int| 0 <= i < t.len() ==> keys.contains((#[trigger] t[i]).0) && t[i].1 == count_v(keys, t[i].0)
    &&& forall|k: KeyV| keys.contains(k) ==> exists|i: int| 0 <= i < t.len() && (#[trigger] t[i]).0 == k
}

/// The model of a table of counts.
pub open spec fn counts_v(t: Seq<(Key, usize)>) -> Seq<(KeyV, nat)> {
    Seq::new(t.len(), |i: int| (key_v(t[i].0), t[i].1 as nat))
}

proof fn lemma_count_push(s: Seq<KeyV>, x: KeyV, k: KeyV)
    ensures
        count_v(s.push(x), k) == count_v(s, k) + if x == k { 1nat } else { 0nat },
{
    assert(s.push(x).drop_last() =~= s);
}

proof fn lemma_count_bound(s: Seq<KeyV>, k: KeyV)
    ensures
        count_v(s, k) <= s.len(),
        s.contains(k) <==> count_v(s, k) > 0,
    decreases s.len(),
{
    if s.len() > 0 {
        lemma_count_bound(s.drop_last(), k);
        if s.contains(k) && s.last() != k {
            let i = choose|i: int| 0 <= i < s.len() && s[i] == k;
            assert(s.drop_last()[i] == k);
        }
        if s.drop_last().contains(k) {
            let i = choose|i: int| 0 <= i < s.drop_last().len() && s.drop_last()[i] == k;
            assert(s[i] == k);
        }
        if s.last() == k {
            assert(s[s.len() - 1] == k);
        }
    }
}

fn key_eq(a: &Key, b: &Key) -> (r: bool)
    ensures
        r == (key_v(*a) == key_v(*b)),
{
    str_eq(a.0.as_str(), b.0.as_str()) && str_eq(a.1.as_str(), b.1.as_str())
        && str_eq(a.2.as_str(), b.2.as_str()) && str_eq(a.3.as_str(), b.3.as_str())
}

/// Counts one more occurrence of a key.
fn add_count(t: &mut Vec<(Key, usize)>, k: Key, Ghost(seen): Ghost<Seq<KeyV>>)
    requires
        counts_ok(counts_v(old(t)@), seen),
        seen.len() < usize::MAX,
    ensures
        counts_ok(counts_v(final(t)@), seen.push(key_v(k))),
{
    let ghost kv = key_v(k);
    let ghost t0 = counts_v(t@);
    let ghost s1 = seen.push(kv);
    proof {
        assert forall|x: KeyV| #[trigger] count_v(s1, x) == count_v(seen, x) + if kv == x { 1nat } else { 0nat } by {
            lemma_count_push(seen, kv, x);
        }
        assert forall|x: KeyV| seen.contains(x) implies #[trigger] s1.contains(x) by {
            let i = choose|i: int| 0 <= i < seen.len() && seen[i] == x;
            assert(s1[i] == x);
        }
        assert(s1[seen.len() as int] == kv);
    }
    let mut i: usize = 0;
    while i < t.len()
        invariant
            i <= t@.len(),
            t0 == counts_v(t@),
            t@ == old(t)@,
            counts_ok(t0, seen),
            kv == key_v(k),
            seen.len() < usize::MAX,
            s1 == seen.push(kv),
            s1[seen.len() as int] == kv,
            forall|x: KeyV| #[trigger] count_v(s1, x) == count_v(seen, x) + if kv == x { 1nat } else { 0nat },
            forall|x: KeyV| seen.contains(x) ==> #[trigger] s1.contains(x),
            forall|x: int| 0 <= x < i ==> (#[trigger] t0[x]).0 != kv,
        decreases t@.len() - i,
    {
        assert(t0[i as int].0 == key_v(t@[i as int].0) && t0[i as int].1 == t@[i as int].1 as nat);
        if key_eq(&t[i].0, &k) {
            let c = t[i].1;
            proof {
                lemma_count_bound(seen, kv);
                assert(key_v(t@[i as int].0) == kv);
                assert(t0[i as int].0 == kv);
                assert(seen.contains(t0[i as int].0) && t0[i as int].1 == count_v(seen, t0[i as int].0));
                assert(c as nat == count_v(seen, kv));
            }
            let (key, _) = t.remove(i);
            t.insert(i, (key, c + 1));
            proof {
                let t1 = counts_v(t@);
                assert(t1 =~= t0.update(i as int, (kv, (c + 1) as nat)));
                assert forall|a: int, b: int| 0 <= a < b < t1.len() implies (#[trigger] t1[a]).0 != (#[trigger] t1[b]).0 by {
                    assert(t1[a].0 == t0[a].0 && t1[b].0 == t0[b].0);
                }
                assert forall|a: int| 0 <= a < t1.len() implies s1.contains((#[trigger] t1[a]).0) && t1[a].1 == count_v(s1, t1[a].0) by {
                    if a != i {
                        assert(t1[a] == t0[a]);
                        assert(t0[a].0 != kv) by {
                            if a < i { } else { assert(t0[i as int].0 == kv); }
                        }
                    }
                }
                assert forall|x: KeyV| s1.contains(x) implies exists|a: int| 0 <= a < t1.len() && (#[trigger] t1[a]).0 == x by {
                    if x == kv {
                        assert(t1[i as int].0 == x);
                    } else {
                        let y = choose|y: int| 0 <= y < s1.len() && s1[y] == x;
                        assert(y != seen.len());
                        assert(seen[y] == x);
                        assert(seen.contains(x));
                        let a = choose|a: int| 0 <= a < t0.len() && (#[trigger] t0[a]).0 == x;
                        assert(t1[a].0 == x);
                    }
                }
            }
            return;
        }
        i += 1;
    }
    proof {
        lemma_count_bound(seen, kv);
        assert(!seen.contains(kv)) by {
            if seen.contains(kv) {
                let a = choose|a: int| 0 <= a < t0.len() && (#[trigger] t0[a]).0 == kv;
                assert(t0[a].0 != kv);
            }
        }
    }
    t.push((k, 1));
    proof {
        let t1 = counts_v(t@);
        assert(t1 =~= t0.push((kv, 1nat)));
        assert forall|a: int, b: int| 0 <= a < b < t1.len() implies (#[trigger] t1[a]).0 != (#[trigger] t1[b]).0 by {
            if b < t0.len() {
                assert(t1[a] == t0[a] && t1[b] == t0[b]);
            } else {
                assert(t1[a] == t0[a]);
            }
        }
        assert forall|a: int| 0 <= a < t1.len() implies s1.contains((#[trigger] t1[a]).0) && t1[a].1 == count_v(s1, t1[a].0) by {
            if a < t0.len() {
                assert(t1[a] == t0[a]);
                assert(t0[a].0 != kv);
            }
        }
        assert forall|x: KeyV| s1.contains(x) implies exists|a: int| 0 <= a < t1.len() && (#[trigger] t1[a]).0 == x by {
            if x == kv {
                assert(t1[t0.len() as int].0 == x);
            } else {
                let y = choose|y: int| 0 <= y < s1.len() && s1[y] == x;
                assert(seen[y] == x);
                assert(seen.contains(x));
                let a = choose|a: int| 0 <= a < t0.len() && (#[trigger] t0[a]).0 == x;
                assert(t1[a].0 == x);
            }
        }
    }
}

proof fn lemma_all_keys_step(s: Seq<JsonV>, i: int)
    requires
        0 <= i < s.len(),
    ensures
        all_keys_v(s.take(i + 1)) == all_keys_v(s.take(i)) + impact_keys_v(s[i]),
{
    assert(s.take(i + 1).drop_last() =~= s.take(i));
}

proof fn lemma_all_keys_prefix(s: Seq<JsonV>, i: int)
    requires
        0 <= i <= s.len(),
    ensures
        all_keys_v(s.take(i)).len() <= all_keys_v(s).len(),
    decreases s.len() - i,
{
    if i < s.len() {
        lemma_all_keys_step(s, i);
        lemma_all_keys_prefix(s, i + 1);
    } else {
        assert(s.take(i) =~= s);
    }
}

/// The key of one consumer of a public model.
fn consumer_key(c: &Json, public_model: &str) -> (r: Key)
    ensures
        key_v(r) == consumer_key_v(c@, public_model@),
{
    let model = match str_at(c, "model") {
        Some(m) => owned(m),
        None => String::new(),
    };
    let project = match str_at(c, "project_id") {
        Some(p) => owned(p),
        None => match u64_at(c, "project_id") {
            Some(n) => u64_to_string(n),
            None => String::new(),
        },
    };
    let env = match u64_at(c, "environment_id") {
        Some(n) => u64_to_string(n),
        None => String::new(),
    };
    (model, owned(public_model), project, env)
}

/// Counts the (consumer, public model, project, environment) pairs of the
/// impact rows, in order of first appearance.
fn count_keys(impacts: &Vec<Json>) -> (r: Vec<(Key, usize)>)
    requires
        all_keys_v(vview(impacts@)).len() < usize::MAX,
    ensures
        counts_ok(counts_v(r@), all_keys_v(vview(impacts@))),
{
    let ghost iv = vview(impacts@);
    let mut t: Vec<(Key, usize)> = Vec::new();
    let mut i: usize = 0;
    while i < impacts.len()
        invariant
            i <= impacts@.len(),
            iv == vview(impacts@),
            all_keys_v(iv).len() < usize::MAX,
            counts_ok(counts_v(t@), all_keys_v(iv.take(i as int))),
        decreases impacts@.len() - i,
    {
        let impact = &impacts[i];
        assert(iv[i as int] == impact@);
        proof {
            lemma_all_keys_step(iv, i as int);
            lemma_all_keys_prefix(iv, i + 1);
        }
        let ghost before = all_keys_v(iv.take(i as int));
        let ghost mine = impact_keys_v(impact@);
        let pm = match str_at(impact, "public_model") {
            Some(m) => owned(m),
            None => String::new(),
        };
        match array_at(impact, "consumers") {
            Some(cs) => {
                let ghost cv = json_view(Json::Array(*cs))->Array_0;
                proof { lemma_array_view(*cs); }
                assert(mine.len() == cs@.len());
                let mut j: usize = 0;
                while j < cs.len()
                    invariant
                        j <= cs@.len(),
                        mine.len() == cs@.len(),
                        forall|x: int| 0 <= x < cs@.len() ==> mine[x] == consumer_key_v((#[trigger] cs@[x])@, pm@),
                        (before + mine).len() < usize::MAX,
                        counts_ok(counts_v(t@), before + mine.take(j as int)),
                    decreases cs@.len() - j,
                {
                    let k = consumer_key(&cs[j], pm.as_str());
                    assert((before + mine.take(j as int)).push(key_v(k)) =~= before + mine.take(j + 1));
                    add_count(&mut t, k, Ghost(before + mine.take(j as int)));
                    j += 1;
                }
                assert(mine.take(cs@.len() as int) =~= mine);
            },
            None => {
                assert(mine =~= Seq::<KeyV>::empty());
                assert(before + mine =~= before);
            },
        }
        i += 1;
    }
    assert(iv.take(impacts@.len() as int) =~= iv);
    t
}

/// The consumer model of an entry of a table of counts.
pub open spec fn entry_consumer(e: (KeyV, nat)) -> Seq<char> {
    e.0.0
}

/// The entries are in order of consumer model.
pub open spec fn by_consumer(out: Seq<(KeyV, nat)>) -> bool {
    forall|a: int, b: int| 0 <= a < b < out.len() ==> !chars_lt(entry_consumer(#[trigger] out[b]), entry_consumer(#[trigger] out[a]))
}

/// No key has two entries.
pub open spec fn keys_distinct(out: Seq<(KeyV, nat)>) -> bool {
    forall|a: int, b: int| 0 <= a < b < out.len() ==> (#[trigger] out[a]).0 != (#[trigger] out[b]).0
}

/// Every entry of `out` is one of the first `i` of `t`.
pub open spec fn drawn_from(out: Seq<(KeyV, nat)>, t: Seq<(KeyV, nat)>, i: int) -> bool {
    forall|y: int| 0 <= y < out.len() ==> exists|x: int| 0 <= x < i && #[trigger] out[y] == t[x]
}

/// Every one of the first `i` entries of `t` is in `out`.
pub open spec fn holds_all(out: Seq<(KeyV, nat)>, t: Seq<(KeyV, nat)>, i: int) -> bool {
    forall|x: int| 0 <= x < i ==> exists|y: int| 0 <= y < out.len() && out[y] == #[trigger] t[x]
}

/// The entries `out` are those of `t` up to `i`, with keys held once and in
/// order of consumer model.
pub open spec fn sorted_prefix_ok(out: Seq<(KeyV, nat)>, t: Seq<(KeyV, nat)>, i: int) -> bool {
    &&& out.len() == i
    &&& drawn_from(out, t, i)
    &&& holds_all(out, t, i)
    &&& keys_distinct(out)
    &&& by_consumer(out)
}

proof fn lemma_insert_order(ov: Seq<(KeyV, nat)>, ev: (KeyV, nat), p: int)
    requires
        0 <= p <= ov.len(),
        by_consumer(ov),
        forall|q: int| 0 <= q < p ==> !chars_lt(entry_consumer(ev), entry_consumer(#[trigger] ov[q])),
        p < ov.len() ==> chars_lt(entry_consumer(ev), entry_consumer(ov[p])),
    ensures
        by_consumer(ov.insert(p, ev)),
{
    let nv = ov.insert(p, ev);
    assert forall|a: int, b: int| 0 <= a < b < nv.len() implies
        !chars_lt(entry_consumer(#[trigger] nv[b]), entry_consumer(#[trigger] nv[a])) by {
        if b < p {
            assert(nv[a] == ov[a] && nv[b] == ov[b]);
        } else if b == p {
            assert(nv[a] == ov[a]);
        } else if a < p {
            assert(nv[a] == ov[a] && nv[b] == ov[b - 1]);
        } else if a == p {
            assert(nv[b] == ov[b - 1]);
            let x = entry_consumer(ev);
            let y = entry_consumer(ov[p]);
            let z = entry_consumer(ov[b - 1]);
            if b - 1 > p {
                lemma_chars_lt_total(y, z);
                if chars_lt(y, z) {
                    lemma_chars_lt_trans(x, y, z);
                }
            }
            lemma_chars_lt_total(x, z);
        } else {
            assert(nv[a] == ov[a - 1] && nv[b] == ov[b - 1]);
        }
    }
}

proof fn lemma_insert_members(ov: Seq<(KeyV, nat)>, tv: Seq<(KeyV, nat)>, i: int, p: int)
    requires
        0 <= i < tv.len(),
        0 <= p <= ov.len(),
        drawn_from(ov, tv, i),
        holds_all(ov, tv, i),
    ensures
        drawn_from(ov.insert(p, tv[i]), tv, i + 1),
        holds_all(ov.insert(p, tv[i]), tv, i + 1),
{
    let nv = ov.insert(p, tv[i]);
    assert forall|y: int| 0 <= y < nv.len() implies exists|x: int| 0 <= x < i + 1 && #[trigger] nv[y] == tv[x] by {
        if y < p {
            assert(nv[y] == ov[y]);
            let x = choose|x: int| 0 <= x < i && #[trigger] ov[y] == tv[x];
        } else if y == p {
            assert(nv[y] == tv[i]);
        } else {
            assert(nv[y] == ov[y - 1]);
            let x = choose|x: int| 0 <= x < i && #[trigger] ov[y - 1] == tv[x];
        }
    }
    assert forall|x: int| 0 <= x < i + 1 implies exists|y: int| 0 <= y < nv.len() && nv[y] == #[trigger] tv[x] by {
        if x == i {
            assert(nv[p] == tv[x]);
        } else {
            let y = choose|y: int| 0 <= y < ov.len() && ov[y] == #[trigger] tv[x];
            if y < p {
                assert(nv[y] == ov[y]);
            } else {
                assert(nv[y + 1] == ov[y]);
            }
        }
    }
}

proof fn lemma_insert_distinct(ov: Seq<(KeyV, nat)>, ev: (KeyV, nat), p: int)
    requires
        0 <= p <= ov.len(),
        keys_distinct(ov),
        forall|y: int| 0 <= y < ov.len() ==> (#[trigger] ov[y]).0 != ev.0,
    ensures
        keys_distinct(ov.insert(p, ev)),
{
    let nv = ov.insert(p, ev);
    assert forall|a: int, b: int| 0 <= a < b < nv.len() implies (#[trigger] nv[a]).0 != (#[trigger] nv[b]).0 by {
        if a < p && b < p {
            assert(nv[a] == ov[a] && nv[b] == ov[b]);
        } else if a < p && b == p {
            assert(nv[a] == ov[a]);
        } else if a < p {
            assert(nv[a] == ov[a] && nv[b] == ov[b - 1]);
        } else if a == p {
            assert(nv[b] == ov[b - 1]);
        } else {
            assert(nv[a] == ov[a - 1] && nv[b] == ov[b - 1]);
        }
    }
}

proof fn lemma_sorted_insert(ov: Seq<(KeyV, nat)>, tv: Seq<(KeyV, nat)>, i: int, p: int)
    requires
        0 <= i < tv.len(),
        0 <= p <= ov.len(),
        keys_distinct(tv),
        sorted_prefix_ok(ov, tv, i),
        forall|q: int| 0 <= q < p ==> !chars_lt(entry_consumer(tv[i]), entry_consumer(#[trigger] ov[q])),
        p < ov.len() ==> chars_lt(entry_consumer(tv[i]), entry_consumer(ov[p])),
    ensures
        sorted_prefix_ok(ov.insert(p, tv[i]), tv, i + 1),
{
    assert forall|y: int| 0 <= y < ov.len() implies (#[trigger] ov[y]).0 != tv[i].0 by {
        let x = choose|x: int| 0 <= x < i && #[trigger] ov[y] == tv[x];
        assert(tv[x].0 != tv[i].0);
    }
    lemma_insert_order(ov, tv[i], p);
    lemma_insert_members(ov, tv, i, p);
    lemma_insert_distinct(ov, tv[i], p);
}

/// Orders the counted pairs by consumer model; pairs with the same
/// consumer model keep their order.
fn sort_by_consumer(t: &Vec<(Key, usize)>) -> (r: Vec<(Key, usize)>)
    requires
        keys_distinct(counts_v(t@)),
    ensures
        sorted_prefix_ok(counts_v(r@), counts_v(t@), t@.len() as int),
{
    let ghost tv = counts_v(t@);
    let mut out: Vec<(Key, usize)> = Vec::new();
    let mut i: usize = 0;
    while i < t.len()
        invariant
            i <= t@.len(),
            tv == counts_v(t@),
            keys_distinct(tv),
            sorted_prefix_ok(counts_v(out@), tv, i as int),
        decreases t@.len() - i,
    {
        let ghost ov = counts_v(out@);
        let e = &t[i];
        let ghost ev = tv[i as int];
        assert(ev == (key_v(e.0), e.1 as nat));
        let mut p: usize = 0;
        while p < out.len() && !str_lt(e.0.0.as_str(), out[p].0.0.as_str())
            invariant
                p <= out@.len(),
                ov == counts_v(out@),
                ev == (key_v(e.0), e.1 as nat),
                forall|q: int| 0 <= q < p ==> !chars_lt(entry_consumer(ev), entry_consumer(#[trigger] ov[q])),
            decreases out@.len() - p,
        {
            p += 1;
        }
        let item = ((e.0.0.clone(), e.0.1.clone(), e.0.2.clone(), e.0.3.clone()), e.1);
        assert(key_v(item.0) == key_v(e.0));
        out.insert(p, item);
        proof {
            assert(counts_v(out@) =~= ov.insert(p as int, ev));
            lemma_sorted_insert(ov, tv, i as int, p as int);
        }
        i += 1;
    }
    out
}

fn count_row(k: &Key, n: usize) -> (r: Json)
    ensures
        r@ == count_row_v(key_v(*k), n as nat),
{
    let r = object_of(vec![
        entry("consumer_model", Json::str(k.0.as_str())),
        entry("environment_id", Json::str(k.3.as_str())),
        entry("impacted_columns", Json::from_u64(n as u64)),
        entry("project_id", Json::str(k.2.as_str())),
        entry("public_model", Json::str(k.1.as_str())),
    ]);
    assert(r@->Object_0 =~= count_row_v(key_v(*k), n as nat)->Object_0);
    r
}

proof fn lemma_count_row_inj(k1: KeyV, n1: nat, k2: KeyV, n2: nat)
    requires
        count_row_v(k1, n1) == count_row_v(k2, n2),
    ensures
        k1 == k2,
{
    let a = count_row_v(k1, n1)->Object_0;
    let b = count_row_v(k2, n2)->Object_0;
    assert(a[0] == b[0] && a[1] == b[1] && a[3] == b[3] && a[4] == b[4]);
}

/// How many impact rows name the public model `m`.
fn count_model(impacts: &Vec<Json>, m: &str) -> (r: usize)
    ensures
        r as nat == model_count_v(vview(impacts@), m@),
{
    let ghost iv = vview(impacts@);
    let mut n: usize = 0;
    let mut i: usize = 0;
    while i < impacts.len()
        invariant
            i <= impacts@.len(),
            iv == vview(impacts@),
            n as nat == model_count_v(iv.take(i as int), m@),
            n <= i,
        decreases impacts@.len() - i,
    {
        assert(iv.take(i + 1).drop_last() =~= iv.take(i as int));
        assert(iv.take(i + 1).last() == impacts@[i as int]@);
        if let Some(pm) = str_at(&impacts[i], "public_model") {
            if str_eq(pm, m) {
                n += 1;
            }
        }
        i += 1;
    }
    assert(iv.take(impacts@.len() as int) =~= iv);
    n
}

fn model_rows(report: &Json) -> (r: Vec<Json>)
    ensures
        vview(r@) == model_rows_v(report@),
{
    let empty: Vec<Json> = Vec::new();
    let impacts: &Vec<Json> = match array_at(report, "impacts") {
        Some(a) => {
            proof { lemma_array_view(*a); }
            a
        },
        None => &empty,
    };
    assert(vview(impacts@) =~= report_impacts_v(report@));
    let summary = at(report, "summary");
    let ms: Vec<Json> = match array_at(&summary, "public_models_with_impact") {
        Some(a) => {
            proof { lemma_array_view(*a); }
            let mut c: Vec<Json> = Vec::new();
            let mut i: usize = 0;
            while i < a.len()
                invariant
                    i <= a@.len(),
                    c@.len() == i,
                    forall|x: int| 0 <= x < i ==> (#[trigger] c@[x])@ == a@[x]@,
                decreases a@.len() - i,
            {
                c.push(clone_json(&a[i]));
                i += 1;
            }
            c
        },
        None => Vec::new(),
    };
    let ghost msv = public_list_v(report@);
    let ghost ivs = report_impacts_v(report@);
    assert(vview(ms@) =~= msv);
    let mut out: Vec<Json> = Vec::new();
    let mut i: usize = 0;
    while i < ms.len()
        invariant
            i <= ms@.len(),
            vview(ms@) == msv,
            vview(impacts@) == ivs,
            out@.len() == i,
            forall|x: int| 0 <= x < i ==> (#[trigger] out@[x])@ == model_rows_of(msv, ivs)[x],
        decreases ms@.len() - i,
    {
        assert(msv[i as int] == ms@[i as int]@);
        let m = match ms[i].as_str() {
            Some(s) => owned(s),
            None => String::new(),
        };
        let n = count_model(impacts, m.as_str());
        let row = object_of(vec![
            entry("consumers", Json::str("none found")),
            entry("impacted_columns", Json::from_u64(n as u64)),
            entry("public_model", Json::str(m.as_str())),
        ]);
        assert(m@ == text_or_empty(as_str_v(msv[i as int])));
        assert(row@->Object_0 =~= model_rows_of(msv, ivs)[i as int]->Object_0);
        out.push(row);
        i += 1;
    }
    assert(vview(out@) =~= model_rows_of(msv, ivs));
    out
}

proof fn lemma_rows_drawn(keys: Seq<KeyV>, tv: Seq<(KeyV, nat)>, sv: Seq<(KeyV, nat)>, rv: Seq<JsonV>)
    requires
        forall|i: int| 0 <= i < tv.len() ==> keys.contains((#[trigger] tv[i]).0) && tv[i].1 == count_v(keys, tv[i].0),
        drawn_from(sv, tv, tv.len() as int),
        rv.len() == sv.len(),
        forall|x: int| 0 <= x < rv.len() ==> #[trigger] rv[x] == count_row_v(sv[x].0, sv[x].1),
    ensures
        forall|i: int| 0 <= i < rv.len() ==> #[trigger] is_count_row(rv[i], keys),
{
    assert forall|y: int| 0 <= y < rv.len() implies #[trigger] is_count_row(rv[y], keys) by {
        let x = choose|x: int| 0 <= x < tv.len() && #[trigger] sv[y] == tv[x];
        assert(rv[y] == count_row_v(sv[y].0, sv[y].1));
        assert(keys.contains(tv[x].0) && tv[x].1 == count_v(keys, tv[x].0));
        assert(rv[y] == count_row_v(tv[x].0, count_v(keys, tv[x].0)));
    }
}

proof fn lemma_rows_cover(keys: Seq<KeyV>, tv: Seq<(KeyV, nat)>, sv: Seq<(KeyV, nat)>, rv: Seq<JsonV>)
    requires
        forall|i: int| 0 <= i < tv.len() ==> keys.contains((#[trigger] tv[i]).0) && tv[i].1 == count_v(keys, tv[i].0),
        forall|k: KeyV| keys.contains(k) ==> exists|i: int| 0 <= i < tv.len() && (#[trigger] tv[i]).0 == k,
        holds_all(sv, tv, tv.len() as int),
        rv.len() == sv.len(),
        forall|x: int| 0 <= x < rv.len() ==> #[trigger] rv[x] == count_row_v(sv[x].0, sv[x].1),
    ensures
        forall|k: KeyV| keys.contains(k) ==> #[trigger] has_count_row(rv, k, keys),
{
    assert forall|k: KeyV| keys.contains(k) implies #[trigger] has_count_row(rv, k, keys) by {
        let x = choose|x: int| 0 <= x < tv.len() && (#[trigger] tv[x]).0 == k;
        let y = choose|y: int| 0 <= y < sv.len() && sv[y] == #[trigger] tv[x];
        assert(rv[y] == count_row_v(sv[y].0, sv[y].1));
    }
}

proof fn lemma_rows_distinct_sorted(sv: Seq<(KeyV, nat)>, rv: Seq<JsonV>)
    requires
        keys_distinct(sv),
        by_consumer(sv),
        rv.len() == sv.len(),
        forall|x: int| 0 <= x < rv.len() ==> #[trigger] rv[x] == count_row_v(sv[x].0, sv[x].1),
    ensures
        forall|i: int, j: int| 0 <= i < j < rv.len() ==> (#[trigger] rv[i]) != (#[trigger] rv[j]),
        forall|i: int, j: int| 0 <= i < j < rv.len() ==> !chars_lt(row_consumer_v(#[trigger] rv[j]), row_consumer_v(#[trigger] rv[i])),
{
    assert forall|a: int, b: int| 0 <= a < b < rv.len() implies (#[trigger] rv[a]) != (#[trigger] rv[b]) by {
        if rv[a] == rv[b] {
            lemma_count_row_inj(sv[a].0, sv[a].1, sv[b].0, sv[b].1);
        }
    }
    assert forall|a: int, b: int| 0 <= a < b < rv.len() implies
        !chars_lt(row_consumer_v(#[trigger] rv[b]), row_consumer_v(#[trigger] rv[a])) by {
        assert(row_consumer_v(rv[a]) == entry_consumer(sv[a]));
        assert(row_consumer_v(rv[b]) == entry_consumer(sv[b]));
    }
}

proof fn lemma_rows_ok(keys: Seq<KeyV>, tv: Seq<(KeyV, nat)>, sv: Seq<(KeyV, nat)>, rv: Seq<JsonV>)
    requires
        counts_ok(tv, keys),
        sorted_prefix_ok(sv, tv, tv.len() as int),
        rv.len() == sv.len(),
        forall|x: int| 0 <= x < rv.len() ==> #[trigger] rv[x] == count_row_v(sv[x].0, sv[x].1),
    ensures
        count_rows_ok(rv, keys),
{
    lemma_rows_drawn(keys, tv, sv, rv);
    lemma_rows_cover(keys, tv, sv, rv);
    lemma_rows_distinct_sorted(sv, rv);
}

/// How many consumer entries the impact rows of a report hold, when that is
/// below `usize::MAX`; `None` when it is not.
pub fn consumer_count(report: &Json) -> (r: Option<usize>)
    ensures
        r matches Some(n) ==> n == all_keys_v(report_impacts_v(report@)).len() && n < usize::MAX,
        r is None ==> all_keys_v(report_impacts_v(report@)).len() >= usize::MAX,
{
    let impacts: &Vec<Json> = match array_at(report, "impacts") {
        Some(a) => {
            proof { lemma_array_view(*a); }
            a
        },
        None => {
            assert(report_impacts_v(report@) =~= Seq::<JsonV>::empty());
            assert(all_keys_v(Seq::<JsonV>::empty()).len() == 0);
            return Some(0);
        },
    };
    let ghost iv = vview(impacts@);
    assert(iv =~= report_impacts_v(report@));
    let mut total: usize = 0;
    let mut i: usize = 0;
    while i < impacts.len()
        invariant
            i <= impacts@.len(),
            iv == vview(impacts@),
            iv == report_impacts_v(report@),
            total == all_keys_v(iv.take(i as int)).len(),
            total < usize::MAX,
        decreases impacts@.len() - i,
    {
        proof { lemma_all_keys_step(iv, i as int); }
        let k: usize = match array_at(&impacts[i], "consumers") {
            Some(cs) => {
                proof { lemma_array_view(*cs); }
                cs.len()
            },
            None => 0,
        };
        assert(impact_keys_v(iv[i as int]).len() == k);
        if k >= usize::MAX - total {
            proof { lemma_all_keys_prefix(iv, i + 1); }
            return None;
        }
        total = total + k;
        i += 1;
    }
    assert(iv.take(impacts@.len() as int) =~= iv);
    Some(total)
}

/// Reshapes an impact report into a flat table: one row per (consumer,
/// public model) pair with the number of impacted columns that flow into
/// it, in order of consumer model; when no consumer was found, one row per
/// impacted public model instead.
pub fn consumer_summary_table(report: &Json) -> (r: Json)
    requires
        all_keys_v(report_impacts_v(report@)).len() < usize::MAX,
    ensures
        all_keys_v(report_impacts_v(report@)).len() == 0 ==> r@ == JsonV::Array(model_rows_v(report@)),
        all_keys_v(report_impacts_v(report@)).len() > 0 ==>
            r@ is Array && count_rows_ok(r@->Array_0, all_keys_v(report_impacts_v(report@))),
{
    let ghost keys = all_keys_v(report_impacts_v(report@));
    let empty: Vec<Json> = Vec::new();
    let impacts: &Vec<Json> = match array_at(report, "impacts") {
        Some(a) => {
            proof { lemma_array_view(*a); }
            a
        },
        None => &empty,
    };
    assert(vview(impacts@) =~= report_impacts_v(report@));
    let counts = count_keys(impacts);
    let ghost tv = counts_v(counts@);
    if counts.len() == 0 {
        proof {
            if keys.len() > 0 {
                assert(keys.contains(keys[0]));
            }
        }
        return array_of(model_rows(report));
    }
    proof {
        assert(keys.contains(tv[0].0));
        lemma_count_bound(keys, tv[0].0);
    }
    let sorted = sort_by_consumer(&counts);
    let ghost sv = counts_v(sorted@);
    let mut rows: Vec<Json> = Vec::new();
    let mut i: usize = 0;
    while i < sorted.len()
        invariant
            i <= sorted@.len(),
            sv == counts_v(sorted@),
            rows@.len() == i,
            forall|x: int| 0 <= x < i ==> (#[trigger] rows@[x])@ == count_row_v(sv[x].0, sv[x].1),
        decreases sorted@.len() - i,
    {
        let row = count_row(&sorted[i].0, sorted[i].1);
        rows.push(row);
        i += 1;
    }
    proof { lemma_rows_ok(keys, tv, sv, vview(rows@)); }
    array_of(rows)
}

// ---------------------------------------------------------------------------
// The impact command
// ---------------------------------------------------------------------------

/// The texts of a list, trimmed, leaving out those that are empty.
pub open spec fn trimmed_lines_v(lines: Seq<String>) -> Seq<Seq<char>>
    decreases lines.len(),
{
    if lines.len() == 0 {
        Seq::empty()
    } else {
        let rest = trimmed_lines_v(lines.drop_last());
        let t = spec_trim(lines.last()@);
        if t.len() > 0 { rest.push(t) } else { rest }
    }
}

/// The inputs of the impact command: with `--files`, the non-empty
/// trimmed lines read from standard input; otherwise the arguments. Fails
/// when there are none.
pub fn collect_inputs(files: bool, stdin_lines: &Vec<String>, inputs: &Vec<String>) -> (r: Result<Vec<String>, DbtpError>)
    ensures
        files ==> (match r {
            Ok(v) => texts_v(v@) == trimmed_lines_v(stdin_lines@) && v@.len() > 0,
            Err(e) => trimmed_lines_v(stdin_lines@).len() == 0
                && config_error(e, "no file paths provided on stdin; pipe file paths with --files"@),
        }),
        !files ==> (match r {
            Ok(v) => v@ == inputs@ && inputs@.len() > 0,
            Err(e) => inputs@.len() == 0
                && config_error(e, "provide model unique IDs or file paths as arguments, or use --files to read from stdin"@),
        }),
{
    if files {
        let mut paths: Vec<String> = Vec::new();
        let mut i: usize = 0;
        while i < stdin_lines.len()
            invariant
                i <= stdin_lines@.len(),
                texts_v(paths@) == trimmed_lines_v(stdin_lines@.take(i as int)),
            decreases stdin_lines@.len() - i,
        {
            assert(stdin_lines@.take(i + 1).drop_last() =~= stdin_lines@.take(i as int));
            let t = trim(stdin_lines[i].as_str());
            if !t.as_str().is_empty() {
                let ghost before = paths@;
                paths.push(t);
                assert(texts_v(paths@) =~= texts_v(before).push(paths@[before.len() as int]@));
            }
            i += 1;
        }
        assert(stdin_lines@.take(stdin_lines@.len() as int) =~= stdin_lines@);
        if paths.len() == 0 {
            return Err(DbtpError::config("no file paths provided on stdin; pipe file paths with --files"));
        }
        Ok(paths)
    } else {
        if inputs.len() == 0 {
            return Err(DbtpError::config(
                "provide model unique IDs or file paths as arguments, or use --files to read from stdin",
            ));
        }
        Ok(inputs.clone())
    }
}

/// The inputs that name models, and those that name files.
pub open spec fn split_inputs_v(raw: Seq<String>) -> (Seq<Seq<char>>, Seq<Seq<char>>)
    decreases raw.len(),
{
    if raw.len() == 0 {
        (Seq::empty(), Seq::empty())
    } else {
        let (ids, paths) = split_inputs_v(raw.drop_last());
        let x = raw.last()@;
        if x.contains('/') || is_suffix(".sql"@, x) || is_suffix(".py"@, x) {
            (ids, paths.push(x))
        } else {
            (ids.push(x), paths)
        }
    }
}

/// Splits the inputs into model unique ids and file paths, keeping their order.
pub fn partition_inputs(raw: &Vec<String>) -> (r: (Vec<String>, Vec<String>))
    ensures
        (texts_v(r.0@), texts_v(r.1@)) == split_inputs_v(raw@),
{
    let mut ids: Vec<String> = Vec::new();
    let mut paths: Vec<String> = Vec::new();
    let mut i: usize = 0;
    while i < raw.len()
        invariant
            i <= raw@.len(),
            (texts_v(ids@), texts_v(paths@)) == split_inputs_v(raw@.take(i as int)),
        decreases raw@.len() - i,
    {
        assert(raw@.take(i + 1).drop_last() =~= raw@.take(i as int));
        assert(raw@.take(i + 1).last() == raw@[i as int]);
        if is_file_path(raw[i].as_str()) {
            let ghost before = paths@;
            paths.push(raw[i].clone());
            assert(texts_v(paths@) =~= texts_v(before).push(raw@[i as int]@));
        } else {
            let ghost before = ids@;
            ids.push(raw[i].clone());
            assert(texts_v(ids@) =~= texts_v(before).push(raw@[i as int]@));
        }
        i += 1;
    }
    assert(raw@.take(raw@.len() as int) =~= raw@);
    (ids, paths)
}

/// The models to analyse: those named directly, then those the files
/// resolved to. Fails when there are none.
pub fn impact_targets(ids: Vec<String>, resolved: Vec<String>) -> (r: Result<Vec<String>, DbtpError>)
    ensures
        r matches Ok(v) ==> v@ == ids@ + resolved@ && v@.len() > 0,
        r matches Err(e) ==> ids@.len() == 0 && resolved@.len() == 0
            && config_error(e, "none of the provided inputs matched any models in the environment"@),
{
    let mut all = ids;
    let mut more = resolved;
    let ghost a = all@;
    let ghost b = more@;
    all.append(&mut more);
    if all.len() == 0 {
        return Err(DbtpError::config("none of the provided inputs matched any models in the environment"));
    }
    Ok(all)
}

/// Whether consumers are looked up in other environments, and where:
/// `--downstream-envs` implies `--cross-project`; without either nothing is
/// looked up, and `--cross-project` alone searches every deployment
/// environment (an empty list).
pub fn impact_scope(cross_project: bool, downstream_envs: &Vec<u64>) -> (r: (bool, Vec<u64>))
    ensures
        r.0 == (cross_project || downstream_envs@.len() > 0),
        r.0 ==> r.1@ == downstream_envs@,
        !r.0 ==> r.1@.len() == 0,
{
    let effective = cross_project || downstream_envs.len() > 0;
    if effective {
        (effective, downstream_envs.clone())
    } else {
        (effective, Vec::new())
    }
}

/// The impact row lists at least one consumer.
pub open spec fn has_consumers_v(impact: JsonV) -> bool {
    match as_array_v(at_v(impact, "consumers"@)) {
        Some(a) => a.len() > 0,
        None => false,
    }
}

/// The impact rows that list at least one consumer.
pub open spec fn consumed_v(a: Seq<JsonV>) -> Seq<JsonV>
    decreases a.len(),
{
    if a.len() == 0 {
        Seq::empty()
    } else {
        let rest = consumed_v(a.drop_last());
        if has_consumers_v(a.last()) { rest.push(a.last()) } else { rest }
    }
}

/// The report with only the impacts that have consumers, and the total
/// counted again.
pub open spec fn consumed_report_v(report: JsonV) -> JsonV {
    let imps = match at_v(report, "impacts"@) {
        JsonV::Array(a) => JsonV::Array(consumed_v(a)),
        other => other,
    };
    let count: u64 = match imps {
        JsonV::Array(a) => a.len() as u64,
        _ => 0,
    };
    let r1 = set_field_v(report, "impacts"@, imps);
    set_field_v(r1, "summary"@, set_field_v(at_v(r1, "summary"@), "total_impacts"@, u64_v(count)))
}

/// The report is shaped as the impact analysis makes it.
pub open spec fn report_shape(report: JsonV) -> bool {
    &&& report is Object
    &&& keys_sorted(report->Object_0)
    &&& get_v(report, "impacts"@) is Some
    &&& get_v(report, "summary"@) matches Some(s) && s is Object
}

/// Whether the impact command fails: with consumer lookup, when consumers
/// were found; otherwise when any column lands in a public model.
pub open spec fn impact_fails_v(report: JsonV, cross_project: bool) -> bool {
    if cross_project {
        match as_array_v(at_v(at_v(report, "summary"@), "cross_project_consumers"@)) {
            Some(a) => a.len() > 0,
            None => false,
        }
    } else {
        match as_u64_v(at_v(at_v(report, "summary"@), "total_impacts"@)) {
            Some(n) => n > 0,
            None => false,
        }
    }
}

proof fn lemma_consumed_keys(a: Seq<JsonV>)
    ensures
        all_keys_v(consumed_v(a)).len() <= all_keys_v(a).len(),
    decreases a.len(),
{
    if a.len() > 0 {
        lemma_consumed_keys(a.drop_last());
        if has_consumers_v(a.last()) {
            let c = consumed_v(a.drop_last());
            assert(c.push(a.last()).drop_last() =~= c);
        }
    }
}

fn keep_consumed(a: &Vec<Json>) -> (r: Vec<Json>)
    ensures
        vview(r@) == consumed_v(vview(a@)),
{
    let ghost av = vview(a@);
    let mut out: Vec<Json> = Vec::new();
    let mut i: usize = 0;
    while i < a.len()
        invariant
            i <= a@.len(),
            av == vview(a@),
            vview(out@) == consumed_v(av.take(i as int)),
        decreases a@.len() - i,
    {
        assert(av.take(i + 1).drop_last() =~= av.take(i as int));
        assert(av.take(i + 1).last() == a@[i as int]@);
        let keep = match array_at(&a[i], "consumers") {
            Some(cs) => {
                proof { lemma_array_view(*cs); }
                cs.len() > 0
            },
            None => false,
        };
        if keep {
            let ghost before = out@;
            out.push(clone_json(&a[i]));
            assert(vview(out@) =~= vview(before).push(a@[i as int]@));
        }
        i += 1;
    }
    assert(av.take(a@.len() as int) =~= av);
    out
}

fn consumed_report(report: Json) -> (r: Json)
    ensures
        r@ == consumed_report_v(report@),
{
    let (imps, count) = match report.get("impacts") {
        Some(Json::Array(a)) => {
            let kept = keep_consumed(a);
            let n = kept.len() as u64;
            proof { lemma_array_view(*a); assert(vview(a@) =~= json_view(Json::Array(*a))->Array_0); }
            (array_of(kept), n)
        },
        Some(other) => (clone_json(other), 0u64),
        None => (Json::Null, 0u64),
    };
    let r1 = set_field(report, "impacts", imps);
    let summary = at(&r1, "summary");
    let s2 = set_field(summary, "total_impacts", Json::from_u64(count));
    set_field(r1, "summary", s2)
}

/// The end of the impact command: with consumer lookup, only impacts that
/// have consumers are kept and counted; the command fails (with the report)
/// when asked to and impacts were found; for table output the report is
/// reshaped into the consumer table.
pub fn finish_impact(report: Json, cross_project: bool, fail_on_impact: bool, table_output: bool) -> (r: Result<Json, DbtpError>)
    requires
        report_shape(report@),
        all_keys_v(report_impacts_v(report@)).len() < usize::MAX,
    ensures
        ({
            let r1 = if cross_project { consumed_report_v(report@) } else { report@ };
            let keys = all_keys_v(report_impacts_v(r1));
            match r {
                Err(e) => fail_on_impact && impact_fails_v(r1, cross_project)
                    && (e matches DbtpError::ImpactFound(x) && x@ == r1),
                Ok(v) => !(fail_on_impact && impact_fails_v(r1, cross_project))
                    && (!table_output ==> v@ == r1)
                    && (table_output && keys.len() == 0 ==> v@ == JsonV::Array(model_rows_v(r1)))
                    && (table_output && keys.len() > 0 ==> v@ is Array && count_rows_ok(v@->Array_0, keys)),
            }
        }),
{
    let ghost r0 = report@;
    let report = if cross_project { consumed_report(report) } else { report };
    proof {
        if cross_project {
            let imps = match at_v(r0, "impacts"@) {
                JsonV::Array(a) => JsonV::Array(consumed_v(a)),
                other => other,
            };
            let count: u64 = match imps {
                JsonV::Array(a) => a.len() as u64,
                _ => 0,
            };
            let es0 = r0->Object_0;
            lemma_obj_set(es0, "impacts"@, imps);
            let es1 = obj_set(es0, "impacts"@, imps);
            let s_new = set_field_v(at_v(JsonV::Object(es1), "summary"@), "total_impacts"@, u64_v(count));
            lemma_obj_set(es1, "summary"@, s_new);
            reveal_strlit("impacts");
            reveal_strlit("summary");
            assert("impacts"@[0] != "summary"@[0]);
            assert(at_v(report@, "impacts"@) == imps);
            match at_v(r0, "impacts"@) {
                JsonV::Array(a) => {
                    lemma_consumed_keys(a);
                },
                _ => {
                    assert(report_impacts_v(report@) =~= Seq::<JsonV>::empty());
                    assert(all_keys_v(report_impacts_v(report@)) =~= Seq::<KeyV>::empty());
                },
            }
        }
    }
    if fail_on_impact {
        let summary = at(&report, "summary");
        let fails = if cross_project {
            match array_at(&summary, "cross_project_consumers") {
                Some(a) => {
                    proof { lemma_array_view(*a); }
                    a.len() > 0
                },
                None => false,
            }
        } else {
            match u64_at(&summary, "total_impacts") {
                Some(n) => n > 0,
                None => false,
            }
        };
        if fails {
            return Err(DbtpError::ImpactFound(report));
        }
    }
    if table_output {
        Ok(consumer_summary_table(&report))
    } else {
        Ok(report)
    }
}

} // verus!
