//! Column-level lineage: relative depths of columns around a model, found
//! by a breadth search from the model's own columns.
use vstd::prelude::*;

use crate::graph::{count_true, edge, marked, lemma_closed_contains, lemma_count_bound, lemma_count_set, reachable, successors, within};
use crate::json::{
    array_at, array_of, as_array_v, as_str_v, at, at_v, clone_json, entry, group_json_view, i64_v,
    json_view, lemma_array_view, object_of, set_field, set_field_v, str_at, u64_v, Json, JsonV,
};
use crate::text::str_eq;
use crate::lineage::{build_index, index_of, index_ok, json_names, last_of, lemma_last_range, names_in, node_uid, uid_of, vview, IndexKind};

verus! {

broadcast use group_json_view;

// ---------------------------------------------------------------------------
// Model
// ---------------------------------------------------------------------------

/// The position of the column that stands for `id` (the last one with it).
pub open spec fn col_last(cols: Seq<JsonV>, id: Seq<char>) -> int {
    last_of(IndexKind::Columns, cols, id, cols.len() as int)
}

/// `id` names a column.
pub open spec fn col_in(cols: Seq<JsonV>, id: Seq<char>) -> bool {
    col_last(cols, id) >= 0
}

/// Column `x` lists column `y` among its child columns.
pub open spec fn col_child(cols: Seq<JsonV>, x: Seq<char>, y: Seq<char>) -> bool {
    col_in(cols, x) && col_in(cols, y) && names_in(at_v(cols[col_last(cols, x)], "childColumns"@), y)
}

/// Column `x` lists column `y` among its parent columns.
pub open spec fn col_parent(cols: Seq<JsonV>, x: Seq<char>, y: Seq<char>) -> bool {
    col_in(cols, x) && col_in(cols, y) && names_in(at_v(cols[col_last(cols, x)], "parentColumns"@), y)
}

/// The ids of the columns that belong to the model `target`.
pub open spec fn col_starts(cols: Seq<JsonV>, target: Seq<char>) -> Set<Seq<char>> {
    Set::new(|id: Seq<char>| exists|i: int| 0 <= i < cols.len()
        && as_str_v(at_v(cols[i], "nodeUniqueId"@)) == Some(target)
        && #[trigger] uid_of(cols[i]) == Some(id))
}

/// The column ids at most `k` links away from the model's columns, where a
/// link goes from a column to one of its children or parents.
pub open spec fn col_steps(cols: Seq<JsonV>, target: Seq<char>, k: nat) -> Set<Seq<char>>
    decreases k,
{
    if k == 0 {
        col_starts(cols, target)
    } else {
        let prev = col_steps(cols, target, (k - 1) as nat);
        prev.union(Set::new(|y: Seq<char>| exists|x: Seq<char>| prev.contains(x)
            && (#[trigger] col_child(cols, x, y) || col_parent(cols, x, y))))
    }
}

/// The column ids that can be reached from the model's columns.
pub open spec fn col_reach(cols: Seq<JsonV>, target: Seq<char>) -> Set<Seq<char>> {
    Set::new(|y: Seq<char>| exists|k: nat| #[trigger] col_steps(cols, target, k).contains(y))
}

/// The model of a list of (id, depth) pairs.
pub open spec fn depths_view(ds: Seq<(String, i64)>) -> Seq<(Seq<char>, i64)> {
    ds.map_values(|e: (String, i64)| (e.0@, e.1))
}

/// Entry `j` of a list of (id, depth) pairs is the first entry listed
/// before entry `i` that links to it (lists it as a child or a parent).
pub open spec fn found_from(cols: Seq<JsonV>, ds: Seq<(Seq<char>, i64)>, i: int, j: int) -> bool {
    &&& 0 <= j < i
    &&& (col_child(cols, ds[j].0, ds[i].0) || col_parent(cols, ds[j].0, ds[i].0))
    &&& forall|k: int| #![trigger ds[k]] 0 <= k < j ==> !col_child(cols, ds[k].0, ds[i].0) && !col_parent(cols, ds[k].0, ds[i].0)
}

/// What the relative depths satisfy, listed in the order a breadth search
/// from the model's own columns finds them: each reachable column has
/// exactly one entry; the model's own columns come first, at depth 0; any
/// other column is found from the first entry listed before it that links
/// to it, and is one deeper if that entry lists it as a child, else one
/// shallower (that entry then lists it as a parent); and columns are found
/// in turn: a later column is never found from an earlier entry than an
/// earlier column was.
pub open spec fn depths_ok(cols: Seq<JsonV>, target: Seq<char>, ds: Seq<(Seq<char>, i64)>) -> bool {
    &&& forall|i: int, j: int| 0 <= i < j < ds.len() ==> (#[trigger] ds[i]).0 != (#[trigger] ds[j]).0
    &&& forall|id: Seq<char>| col_reach(cols, target).contains(id) <==> exists|i: int| 0 <= i < ds.len() && (#[trigger] ds[i]).0 == id
    &&& forall|i: int| 0 <= i < ds.len() && col_starts(cols, target).contains(#[trigger] ds[i].0) ==> ds[i].1 == 0
    &&& forall|i: int, j: int| 0 <= i < j < ds.len() && col_starts(cols, target).contains((#[trigger] ds[j]).0)
        ==> col_starts(cols, target).contains((#[trigger] ds[i]).0)
    &&& forall|i: int| 0 <= i < ds.len() && !col_starts(cols, target).contains(#[trigger] ds[i].0) ==>
        exists|j: int| #[trigger] found_from(cols, ds, i, j)
            && (if col_child(cols, ds[j].0, ds[i].0) { ds[i].1 == ds[j].1 + 1 } else { ds[i].1 == ds[j].1 - 1 })
    &&& forall|i1: int, i2: int, j1: int, j2: int| 0 <= i1 < i2 < ds.len()
        && !col_starts(cols, target).contains(ds[i1].0) && !col_starts(cols, target).contains(ds[i2].0)
        && #[trigger] found_from(cols, ds, i1, j1) && #[trigger] found_from(cols, ds, i2, j2) ==> j1 <= j2
}

// ---------------------------------------------------------------------------
// Links between positions
// ---------------------------------------------------------------------------

/// The positions in `ids` of the texts that the array `v` lists, in the
/// order it lists them.
fn links_of(v: Option<&Json>, ids: &Vec<String>) -> (r: Vec<usize>)
    requires
        forall|i: int, j: int| 0 <= i < j < ids@.len() ==> (#[trigger] ids@[i])@ != (#[trigger] ids@[j])@,
    ensures
        forall|k: int| 0 <= k < r@.len() ==> (#[trigger] r@[k]) < ids@.len(),
        forall|j: int| 0 <= j < ids@.len() ==> (r@.contains(j as usize) <==> names_in(
            match v { Some(x) => x@, None => JsonV::Null }, (#[trigger] ids@[j])@)),
{
    let mut r: Vec<usize> = Vec::new();
    match v {
        Some(Json::Array(a)) => {
            proof { lemma_array_view(*a); }
            let ghost av = json_view(Json::Array(*a))->Array_0;
            let mut i: usize = 0;
            while i < a.len()
                invariant
                    i <= a@.len(),
                    av == json_view(Json::Array(*a))->Array_0,
                    av.len() == a@.len(),
                    forall|k: int| 0 <= k < a@.len() ==> av[k] == (#[trigger] a@[k])@,
                    forall|i1: int, j1: int| 0 <= i1 < j1 < ids@.len() ==> (#[trigger] ids@[i1])@ != (#[trigger] ids@[j1])@,
                    forall|k: int| 0 <= k < r@.len() ==> (#[trigger] r@[k]) < ids@.len(),
                    forall|j: int| 0 <= j < ids@.len() ==> (#[trigger] r@.contains(j as usize) <==>
                        exists|k: int| 0 <= k < i && av[k] == JsonV::Str(ids@[j]@)),
                decreases a@.len() - i,
            {
                let ghost r_old = r@;
                let mut hit: Option<usize> = None;
                if let Some(t) = a[i].as_str() {
                    hit = index_of(ids, t);
                    proof {
                        assert(av[i as int] == JsonV::Str(t@));
                        if let Some(jj) = hit {
                            assert(av[i as int] == JsonV::Str(ids@[jj as int]@));
                        }
                    }
                }
                if let Some(j) = hit {
                    r.push(j);
                }
                proof {
                    if let Some(jj) = hit {
                        assert(av[i as int] == JsonV::Str(ids@[jj as int]@));
                    }
                    assert(ids@.len() == ids.len());
                    assert forall|j: int| 0 <= j < ids@.len() implies (#[trigger] r@.contains(j as usize) <==>
                        exists|k: int| 0 <= k < i + 1 && av[k] == JsonV::Str(ids@[j]@)) by {
                        if r@.contains(j as usize) {
                            let m = choose|m: int| 0 <= m < r@.len() && r@[m] == j as usize;
                            if m < r_old.len() {
                                assert(r_old[m] == j as usize);
                                assert(r_old.contains(j as usize));
                            } else {
                                assert(hit == Some(j as usize));
                                assert((j as usize) as int == j);
                                assert(av[i as int] == JsonV::Str(ids@[(j as usize) as int]@));
                                assert(av[i as int] == JsonV::Str(ids@[j]@));
                            }
                        }
                        if exists|k: int| 0 <= k < i + 1 && av[k] == JsonV::Str(ids@[j]@) {
                            let k = choose|k: int| 0 <= k < i + 1 && av[k] == JsonV::Str(ids@[j]@);
                            if k < i {
                                assert(r_old.contains(j as usize));
                                let m = choose|m: int| 0 <= m < r_old.len() && r_old[m] == j as usize;
                                assert(r@[m] == j as usize);
                            } else {
                                assert(a@[i as int]@ == JsonV::Str(ids@[j]@));
                                let t = a[i as int]->String_0;
                                match hit {
                                    Some(jj) => {
                                        assert(ids@[jj as int]@ == ids@[j]@);
                                        if jj as int != j {
                                            if (jj as int) < j {
                                                assert(ids@[jj as int]@ != ids@[j]@);
                                            } else {
                                                assert(ids@[j]@ != ids@[jj as int]@);
                                            }
                                        }
                                        assert(r@[r@.len() - 1] == j as usize);
                                    },
                                    None => {
                                        assert(false);
                                    },
                                }
                            }
                        }
                    }
                }
                i += 1;
            }
            proof {
                assert forall|j: int| 0 <= j < ids@.len() implies (r@.contains(j as usize) <==> names_in(
                    match v { Some(x) => x@, None => JsonV::Null }, (#[trigger] ids@[j])@)) by {
                    if names_in(match v { Some(x) => x@, None => JsonV::Null }, ids@[j]@) {
                        let k = choose|k: int| 0 <= k < av.len() && av[k] == JsonV::Str(ids@[j]@);
                    }
                }
            }
        },
        _ => {},
    }
    r
}

/// The combined successor lists: children, then parents.
pub open spec fn both(ch: Seq<Vec<usize>>, pa: Seq<Vec<usize>>) -> Seq<Seq<usize>> {
    Seq::new(ch.len(), |i: int| ch[i]@ + pa[i]@)
}

/// The successor lists agree with the column links.
pub open spec fn links_ok(cv: Seq<JsonV>, ids: Seq<String>, ch: Seq<Vec<usize>>, pa: Seq<Vec<usize>>) -> bool {
    &&& ch.len() == ids.len()
    &&& pa.len() == ids.len()
    &&& forall|i: int, k: int| 0 <= i < ids.len() && 0 <= k < ch[i]@.len() ==> (#[trigger] ch[i]@[k]) < ids.len()
    &&& forall|i: int, k: int| 0 <= i < ids.len() && 0 <= k < pa[i]@.len() ==> (#[trigger] pa[i]@[k]) < ids.len()
    &&& forall|i: int, j: int| 0 <= i < ids.len() && 0 <= j < ids.len() ==>
        (#[trigger] ch[i]@.contains(j as usize) <==> col_child(cv, ids[i]@, ids[j]@))
    &&& forall|i: int, j: int| 0 <= i < ids.len() && 0 <= j < ids.len() ==>
        (#[trigger] pa[i]@.contains(j as usize) <==> col_parent(cv, ids[i]@, ids[j]@))
}

proof fn lemma_both_edge(cv: Seq<JsonV>, ids: Seq<String>, ch: Seq<Vec<usize>>, pa: Seq<Vec<usize>>, i: int, j: int)
    requires
        links_ok(cv, ids, ch, pa),
        0 <= i < ids.len(),
        0 <= j < ids.len(),
    ensures
        edge(both(ch, pa), i, j) <==> (col_child(cv, ids[i]@, ids[j]@) || col_parent(cv, ids[i]@, ids[j]@)),
{
    let l = ch[i]@ + pa[i]@;
    assert(both(ch, pa)[i] == l);
    if l.contains(j as usize) {
        let k = choose|k: int| 0 <= k < l.len() && l[k] == j as usize;
        if k < ch[i]@.len() {
            assert(ch[i]@[k] == j as usize);
            assert(ch[i]@.contains(j as usize));
        } else {
            assert(pa[i]@[k - ch[i]@.len()] == j as usize);
            assert(pa[i]@.contains(j as usize));
        }
    }
    if ch[i]@.contains(j as usize) {
        let k = choose|k: int| 0 <= k < ch[i]@.len() && ch[i]@[k] == j as usize;
        assert(l[k] == j as usize);
    }
    if pa[i]@.contains(j as usize) {
        let k = choose|k: int| 0 <= k < pa[i]@.len() && pa[i]@[k] == j as usize;
        assert(l[ch[i]@.len() + k] == j as usize);
    }
}

/// The positions of the model's own columns.
pub open spec fn start_idx(cv: Seq<JsonV>, ids: Seq<String>, target: Seq<char>) -> Set<int> {
    Set::new(|j: int| 0 <= j < ids.len() && col_starts(cv, target).contains(ids[j]@))
}

proof fn lemma_steps_match(cv: Seq<JsonV>, ids: Seq<String>, at: Seq<usize>, ch: Seq<Vec<usize>>, pa: Seq<Vec<usize>>, target: Seq<char>, k: nat)
    requires
        index_ok(IndexKind::Columns, cv, ids, at, cv.len() as int),
        links_ok(cv, ids, ch, pa),
    ensures
        forall|j: int| 0 <= j < ids.len() ==> (within(both(ch, pa), start_idx(cv, ids, target), k).contains(j)
            <==> #[trigger] col_steps(cv, target, k).contains(ids[j]@)),
        forall|id: Seq<char>| #[trigger] col_steps(cv, target, k).contains(id) ==> col_in(cv, id),
        forall|j: int| #[trigger] within(both(ch, pa), start_idx(cv, ids, target), k).contains(j) ==> 0 <= j < ids.len(),
    decreases k,
{
    let g = both(ch, pa);
    let st = start_idx(cv, ids, target);
    if k == 0 {
        assert forall|id: Seq<char>| #[trigger] col_steps(cv, target, k).contains(id) implies col_in(cv, id) by {
            let i = choose|i: int| 0 <= i < cv.len()
                && as_str_v(at_v(cv[i], "nodeUniqueId"@)) == Some(target)
                && #[trigger] uid_of(cv[i]) == Some(id);
            lemma_last_index(cv, id, i);
        }
    } else {
        let k1 = (k - 1) as nat;
        lemma_steps_match(cv, ids, at, ch, pa, target, k1);
        let wp = within(g, st, k1);
        let hp = col_steps(cv, target, k1);
        assert forall|j: int| 0 <= j < ids.len() implies (within(g, st, k).contains(j) <==> #[trigger] col_steps(cv, target, k).contains(ids[j]@)) by {
            if within(g, st, k).contains(j) && !wp.contains(j) {
                let i = choose|i: int| wp.contains(i) && #[trigger] edge(g, i, j);
                lemma_both_edge(cv, ids, ch, pa, i, j);
                assert(hp.contains(ids[i]@));
                assert(col_child(cv, ids[i]@, ids[j]@) || col_parent(cv, ids[i]@, ids[j]@));
            }
            if col_steps(cv, target, k).contains(ids[j]@) && !hp.contains(ids[j]@) {
                let x = choose|x: Seq<char>| hp.contains(x) && (#[trigger] col_child(cv, x, ids[j]@) || col_parent(cv, x, ids[j]@));
                assert(last_of(IndexKind::Columns, cv, x, cv.len() as int) >= 0);
                let i = choose|i: int| 0 <= i < ids.len() && (#[trigger] ids[i])@ == x;
                assert(wp.contains(i));
                lemma_both_edge(cv, ids, ch, pa, i, j);
                assert(edge(g, i, j));
            }
        }
        assert forall|id: Seq<char>| #[trigger] col_steps(cv, target, k).contains(id) implies col_in(cv, id) by {
            if !hp.contains(id) {
                let x = choose|x: Seq<char>| hp.contains(x) && (#[trigger] col_child(cv, x, id) || col_parent(cv, x, id));
            }
        }
        assert forall|j: int| #[trigger] within(g, st, k).contains(j) implies 0 <= j < ids.len() by {
            if !wp.contains(j) {
                let i = choose|i: int| wp.contains(i) && #[trigger] edge(g, i, j);
            }
        }
    }
}

proof fn lemma_last_index(cv: Seq<JsonV>, id: Seq<char>, i: int)
    requires
        0 <= i < cv.len(),
        uid_of(cv[i]) == Some(id),
    ensures
        col_in(cv, id),
    decreases cv.len() - i,
{
    lemma_last_at_least(cv, id, i, cv.len() as int);
}

proof fn lemma_last_at_least(cv: Seq<JsonV>, id: Seq<char>, i: int, n: int)
    requires
        0 <= i < n <= cv.len(),
        uid_of(cv[i]) == Some(id),
    ensures
        last_of(IndexKind::Columns, cv, id, n) >= i,
    decreases n,
{
    if n - 1 > i {
        lemma_last_at_least(cv, id, i, n - 1);
    }
}

// ---------------------------------------------------------------------------
// The breadth search
// ---------------------------------------------------------------------------

proof fn lemma_first_link_found_from(cv: Seq<JsonV>, ids: Seq<String>, ch: Seq<Vec<usize>>, pa: Seq<Vec<usize>>,
    order: Seq<(usize, i64)>, ds: Seq<(Seq<char>, i64)>, a: int, p: int)
    requires
        links_ok(cv, ids, ch, pa),
        ds.len() == order.len(),
        forall|q: int| 0 <= q < order.len() ==> (#[trigger] order[q]).0 < ids.len(),
        forall|q: int| 0 <= q < ds.len() ==> (#[trigger] ds[q]) == (ids[order[q].0 as int]@, order[q].1),
        0 <= a < ds.len(),
    ensures
        first_link(ch, pa, order, a, p) <==> found_from(cv, ds, a, p),
{
    if 0 <= p < a {
        let y = order[p].0 as int;
        let z = order[a].0 as int;
        assert(ds[p] == (ids[y]@, order[p].1));
        assert(ds[a] == (ids[z]@, order[a].1));
        assert(ch[y]@.contains(z as usize) == col_child(cv, ids[y]@, ids[z]@));
        assert(pa[y]@.contains(z as usize) == col_parent(cv, ids[y]@, ids[z]@));
        assert forall|k: int| 0 <= k < p implies (
            (!ch[(#[trigger] order[k]).0 as int]@.contains(order[a].0) && !pa[order[k].0 as int]@.contains(order[a].0))
            <==> (!col_child(cv, ds[k].0, ds[a].0) && !col_parent(cv, ds[k].0, ds[a].0))) by {
            let w = order[k].0 as int;
            assert(ds[k] == (ids[w]@, order[k].1));
            assert(ch[w]@.contains(z as usize) == col_child(cv, ids[w]@, ids[z]@));
            assert(pa[w]@.contains(z as usize) == col_parent(cv, ids[w]@, ids[z]@));
        }
        if first_link(ch, pa, order, a, p) {
            assert forall|k: int| #![trigger ds[k]] 0 <= k < p implies !col_child(cv, ds[k].0, ds[a].0) && !col_parent(cv, ds[k].0, ds[a].0) by {
                assert(order[k] == order[k]);
            }
        }
        if found_from(cv, ds, a, p) {
            assert forall|o: int| #![trigger order[o]] 0 <= o < p implies !ch[order[o].0 as int]@.contains(order[a].0)
                && !pa[order[o].0 as int]@.contains(order[a].0) by {
                assert(ds[o] == ds[o]);
            }
        }
    }
}

/// Relative depth of every column reachable from the columns of the model
/// `target_node_id`: 0 for the model's own columns, then, in breadth-first
/// order, one more for a child column and one less for a parent column
/// than the column it was first found from.
pub fn compute_relative_depths(columns: &Vec<Json>, target_node_id: &str) -> (r: Vec<(String, i64)>)
    requires
        columns@.len() <= i64::MAX,
    ensures
        depths_ok(vview(columns@), target_node_id@, depths_view(r@)),
{
    let ghost cv = vview(columns@);
    let (ids, at) = build_index(&IndexKind::Columns, columns);
    let n = ids.len();
    proof {
        assert forall|i: int| 0 <= i < n implies (#[trigger] at@[i]) < columns@.len() by {
            lemma_last_range(IndexKind::Columns, cv, ids@[i]@, cv.len() as int);
        }
    }
    // Child and parent links between positions.
    let mut ch: Vec<Vec<usize>> = Vec::new();
    let mut pa: Vec<Vec<usize>> = Vec::new();
    let mut i: usize = 0;
    while i < n
        invariant
            n == ids@.len(),
            i <= n,
            cv == vview(columns@),
            index_ok(IndexKind::Columns, cv, ids@, at@, cv.len() as int),
            forall|x: int| 0 <= x < n ==> (#[trigger] at@[x]) < columns@.len(),
            ch@.len() == i,
            pa@.len() == i,
            forall|x: int, k: int| 0 <= x < i && 0 <= k < ch@[x]@.len() ==> (#[trigger] ch@[x]@[k]) < n,
            forall|x: int, k: int| 0 <= x < i && 0 <= k < pa@[x]@.len() ==> (#[trigger] pa@[x]@[k]) < n,
            forall|x: int, y: int| 0 <= x < i && 0 <= y < n ==>
                (#[trigger] ch@[x]@.contains(y as usize) <==> col_child(cv, ids@[x]@, ids@[y]@)),
            forall|x: int, y: int| 0 <= x < i && 0 <= y < n ==>
                (#[trigger] pa@[x]@.contains(y as usize) <==> col_parent(cv, ids@[x]@, ids@[y]@)),
        decreases n - i,
    {
        let c = &columns[at[i]];
        assert(cv[at@[i as int] as int] == c@);
        proof {
            lemma_last_range(IndexKind::Columns, cv, ids@[i as int]@, cv.len() as int);
            assert forall|y: int| 0 <= y < n implies col_in(cv, (#[trigger] ids@[y])@) by {}
        }
        let cl = links_of(c.get("childColumns"), &ids);
        let pl = links_of(c.get("parentColumns"), &ids);
        ch.push(cl);
        pa.push(pl);
        i += 1;
    }
    let ghost g = both(ch@, pa@);
    let ghost st = start_idx(cv, ids@, target_node_id@);
    assert(links_ok(cv, ids@, ch@, pa@));
    // Depths found so far, by position.
    let mut seen: Vec<bool> = Vec::new();
    let mut depth: Vec<i64> = Vec::new();
    let mut k: usize = 0;
    while k < n
        invariant
            k <= n,
            seen@.len() == k,
            depth@.len() == k,
            forall|x: int| 0 <= x < k ==> !seen@[x],
        decreases n - k,
    {
        seen.push(false);
        depth.push(0);
        k += 1;
    }
    // The model's own columns, at depth 0.
    let mut queue: Vec<(usize, i64)> = Vec::new();
    let mut p: usize = 0;
    proof { lemma_count_zero(seen@); }
    while p < columns.len()
        invariant
            p <= columns@.len(),
            n == ids@.len(),
            n <= columns@.len(),
            cv == vview(columns@),
            index_ok(IndexKind::Columns, cv, ids@, at@, cv.len() as int),
            seen@.len() == n,
            depth@.len() == n,
            st == start_idx(cv, ids@, target_node_id@),
            queue@.len() == count_true(seen@),
            forall|q: int| 0 <= q < queue@.len() ==> (#[trigger] queue@[q]).0 < n && seen@[queue@[q].0 as int]
                && depth@[queue@[q].0 as int] == queue@[q].1 && queue@[q].1 == 0,
            forall|x: int| 0 <= x < n && seen@[x] ==> exists|q: int| 0 <= q < queue@.len() && (#[trigger] queue@[q]).0 == x as usize,
            forall|x: int| 0 <= x < n && seen@[x] ==> depth@[x] == 0 && st.contains(x),
            forall|q1: int, q2: int| 0 <= q1 < q2 < queue@.len() ==> (#[trigger] queue@[q1]).0 != (#[trigger] queue@[q2]).0,
            forall|x: int| #![trigger ids@[x]] 0 <= x < n && (exists|c: int| 0 <= c < p
                && as_str_v(at_v(cv[c], "nodeUniqueId"@)) == Some(target_node_id@)
                && #[trigger] uid_of(cv[c]) == Some(ids@[x]@)) ==> seen@[x],
        decreases columns@.len() - p,
    {
        let c = &columns[p];
        assert(cv[p as int] == c@);
        let is_target = match str_at(c, "nodeUniqueId") {
            Some(nid) => crate::text::str_eq(nid, target_node_id),
            None => false,
        };
        let ghost s_old = seen@;
        let ghost q_old = queue@;
        if is_target {
            if let Some(u) = node_uid(c) {
                proof { lemma_last_index(cv, u@, p as int); }
                match index_of(&ids, u) {
                    Some(j) => {
                        if !seen[j] {
                            proof { lemma_count_set(seen@, j as int); }
                            let ghost d_old = depth@;
                            seen.set(j, true);
                            depth.set(j, 0);
                            queue.push((j, 0));
                            proof {
                                assert forall|q1: int, q2: int| 0 <= q1 < q2 < queue@.len() implies (#[trigger] queue@[q1]).0 != (#[trigger] queue@[q2]).0 by {
                                    assert(queue@[q1] == q_old[q1]);
                                    if q2 < q_old.len() {
                                        assert(queue@[q2] == q_old[q2]);
                                    } else {
                                        assert(s_old[q_old[q1].0 as int]);
                                    }
                                }
                                assert(uid_of(cv[p as int]) == Some(ids@[j as int]@));
                                assert(col_starts(cv, target_node_id@).contains(ids@[j as int]@));
                                assert(st.contains(j as int));
                                assert forall|x: int| 0 <= x < n && seen@[x] implies depth@[x] == 0 && st.contains(x) by {
                                    if x != j as int {
                                        assert(s_old[x]);
                                    }
                                }
                                assert forall|x: int| 0 <= x < n && seen@[x] implies exists|q: int| 0 <= q < queue@.len() && (#[trigger] queue@[q]).0 == x as usize by {
                                    if x == j as int {
                                        assert(queue@[queue@.len() - 1].0 == j);
                                    } else {
                                        let q = choose|q: int| 0 <= q < q_old.len() && (#[trigger] q_old[q]).0 == x as usize;
                                        assert(queue@[q] == q_old[q]);
                                    }
                                }
                            }
                        }
                    },
                    None => {
                        proof {
                            assert(last_of(IndexKind::Columns, cv, u@, cv.len() as int) >= 0);
                        }
                    },
                }
            }
        }
        p += 1;
        proof {
            assert forall|x: int| #![trigger ids@[x]] 0 <= x < n && (exists|c: int| 0 <= c < p
                && as_str_v(at_v(cv[c], "nodeUniqueId"@)) == Some(target_node_id@)
                && #[trigger] uid_of(cv[c]) == Some(ids@[x]@)) implies seen@[x] by {
                let c = choose|c: int| 0 <= c < p
                    && as_str_v(at_v(cv[c], "nodeUniqueId"@)) == Some(target_node_id@)
                    && #[trigger] uid_of(cv[c]) == Some(ids@[x]@);
                if c < p - 1 {
                    assert(s_old[x]);
                }
            }
        }
    }
    proof {
        assert forall|x: int| st.contains(x) implies 0 <= x < n && seen@[x] by {
            let c = choose|c: int| 0 <= c < cv.len()
                && as_str_v(at_v(cv[c], "nodeUniqueId"@)) == Some(target_node_id@)
                && #[trigger] uid_of(cv[c]) == Some(ids@[x]@);
        }
        lemma_count_bound(seen@);
    }
    proof {
        assert(marked(seen@) =~= st) by {
            assert forall|x: int| st.contains(x) implies marked(seen@).contains(x) by {}
        }
    }
    let ghost seen0 = seen@;
    let (seen, depth, order) = bfs(&ch, &pa, seen, depth, queue);
    // The found depths, in the order the search found them.
    let mut out: Vec<(String, i64)> = Vec::new();
    let mut m: usize = 0;
    while m < order.len()
        invariant
            n == ids@.len(),
            m <= order@.len(),
            out@.len() == m,
            forall|q: int| 0 <= q < order@.len() ==> (#[trigger] order@[q]).0 < n,
            forall|a: int| 0 <= a < m ==> (#[trigger] out@[a]).0@ == ids@[order@[a].0 as int]@ && out@[a].1 == order@[a].1,
        decreases order@.len() - m,
    {
        let (z, d) = order[m];
        out.push((ids[z].clone(), d));
        m += 1;
    }
    proof {
        let ds = depths_view(out@);
        assert forall|a: int| 0 <= a < ds.len() implies (#[trigger] ds[a]) == (ids@[order@[a].0 as int]@, order@[a].1) by {}
        assert forall|a: int, b: int| 0 <= a < b < ds.len() implies (#[trigger] ds[a]).0 != (#[trigger] ds[b]).0 by {
            let ia = order@[a].0 as int;
            let ib = order@[b].0 as int;
            assert(ia != ib);
            if ia < ib {
                assert(ids@[ia]@ != ids@[ib]@);
            } else {
                assert(ids@[ib]@ != ids@[ia]@);
            }
        }
        assert forall|id: Seq<char>| col_reach(cv, target_node_id@).contains(id) <==> exists|a: int| 0 <= a < ds.len() && (#[trigger] ds[a]).0 == id by {
            if col_reach(cv, target_node_id@).contains(id) {
                let kk = choose|kk: nat| #[trigger] col_steps(cv, target_node_id@, kk).contains(id);
                lemma_steps_match(cv, ids@, at@, ch@, pa@, target_node_id@, kk);
                assert(last_of(IndexKind::Columns, cv, id, cv.len() as int) >= 0);
                let z = choose|z: int| 0 <= z < ids@.len() && (#[trigger] ids@[z])@ == id;
                assert(within(g, st, kk).contains(z));
                assert(reachable(g, st).contains(z));
                assert(marked(seen@).contains(z));
                assert(0 <= z < n && seen@[z]);
                let a = choose|a: int| 0 <= a < order@.len() && (#[trigger] order@[a]).0 == z as usize;
                assert(ds[a].0 == id);
            }
            if exists|a: int| 0 <= a < ds.len() && (#[trigger] ds[a]).0 == id {
                let a = choose|a: int| 0 <= a < ds.len() && (#[trigger] ds[a]).0 == id;
                let z = order@[a].0 as int;
                assert(0 <= z < n);
                assert(seen@[z]);
                assert(marked(seen@).contains(z));
                assert(reachable(g, st).contains(z));
                let kk = choose|kk: nat| #[trigger] within(g, st, kk).contains(z);
                lemma_steps_match(cv, ids@, at@, ch@, pa@, target_node_id@, kk);
                assert(col_steps(cv, target_node_id@, kk).contains(id));
            }
        }
        assert forall|a: int| 0 <= a < ds.len() && col_starts(cv, target_node_id@).contains(#[trigger] ds[a].0) implies ds[a].1 == 0 by {
            let z = order@[a].0 as int;
            assert(st.contains(z));
            assert(marked(seen0).contains(z));
        }
        assert forall|a: int, p: int| 0 <= a < ds.len() implies (#[trigger] first_link(ch@, pa@, order@, a, p)
            <==> #[trigger] found_from(cv, ds, a, p)) by {
            lemma_first_link_found_from(cv, ids@, ch@, pa@, order@, ds, a, p);
        }
        assert forall|a: int| 0 <= a < ds.len() implies (col_starts(cv, target_node_id@).contains(#[trigger] ds[a].0)
            <==> marked(seen0).contains(order@[a].0 as int)) by {
            assert(ds[a].0 == ids@[order@[a].0 as int]@);
        }
        assert forall|a: int, b: int| 0 <= a < b < ds.len() && col_starts(cv, target_node_id@).contains((#[trigger] ds[b]).0)
            implies col_starts(cv, target_node_id@).contains((#[trigger] ds[a]).0) by {
            assert(marked(seen0).contains(order@[b].0 as int));
            assert(marked(seen0).contains(order@[a].0 as int));
        }
        assert forall|a: int| 0 <= a < ds.len() && !col_starts(cv, target_node_id@).contains(#[trigger] ds[a].0) implies
            exists|j: int| #[trigger] found_from(cv, ds, a, j)
                && (if col_child(cv, ds[j].0, ds[a].0) { ds[a].1 == ds[j].1 + 1 } else { ds[a].1 == ds[j].1 - 1 }) by {
            let z = order@[a].0 as int;
            assert(!marked(seen0).contains(z));
            assert(found_earlier(ch@, pa@, order@, a));
            let p = choose|p: int| #[trigger] found_at(ch@, pa@, order@, a, p);
            let y = order@[p].0 as int;
            assert(0 <= y < n && 0 <= z < n);
            assert(ds[p] == (ids@[y]@, order@[p].1));
            assert(ch@[y]@.contains(z as usize) == col_child(cv, ids@[y]@, ids@[z]@));
            assert(first_link(ch@, pa@, order@, a, p));
            assert(found_from(cv, ds, a, p));
        }
        assert forall|a1: int, a2: int, j1: int, j2: int| 0 <= a1 < a2 < ds.len()
            && !col_starts(cv, target_node_id@).contains(ds[a1].0) && !col_starts(cv, target_node_id@).contains(ds[a2].0)
            && #[trigger] found_from(cv, ds, a1, j1) && #[trigger] found_from(cv, ds, a2, j2) implies j1 <= j2 by {
            assert(first_link(ch@, pa@, order@, a1, j1));
            assert(first_link(ch@, pa@, order@, a2, j2));
            assert(!marked(seen0).contains(order@[a1].0 as int));
            assert(!marked(seen0).contains(order@[a2].0 as int));
        }
    }
    out
}


/// The entry at `p` of a search queue is the first entry before the one at
/// `q` that links to it (lists it as a child or as a parent).
pub open spec fn first_link(ch: Seq<Vec<usize>>, pa: Seq<Vec<usize>>, queue: Seq<(usize, i64)>, q: int, p: int) -> bool {
    &&& 0 <= p < q
    &&& (ch[queue[p].0 as int]@.contains(queue[q].0) || pa[queue[p].0 as int]@.contains(queue[q].0))
    &&& forall|o: int| #![trigger queue[o]] 0 <= o < p ==> !ch[queue[o].0 as int]@.contains(queue[q].0)
            && !pa[queue[o].0 as int]@.contains(queue[q].0)
}

/// The entry at `q` of a search queue was found from the entry at `p`, the
/// first before it that links to it: as that entry's child, one deeper, or
/// else as its parent, one shallower.
pub open spec fn found_at(ch: Seq<Vec<usize>>, pa: Seq<Vec<usize>>, queue: Seq<(usize, i64)>, q: int, p: int) -> bool {
    &&& first_link(ch, pa, queue, q, p)
    &&& if ch[queue[p].0 as int]@.contains(queue[q].0) {
            queue[q].1 == queue[p].1 + 1
        } else {
            queue[q].1 == queue[p].1 - 1
        }
}

/// The entry at `q` of a search queue was found from an entry before it.
pub open spec fn found_earlier(ch: Seq<Vec<usize>>, pa: Seq<Vec<usize>>, queue: Seq<(usize, i64)>, q: int) -> bool {
    exists|p: int| #[trigger] found_at(ch, pa, queue, q, p)
}

proof fn lemma_first_link_unique(ch: Seq<Vec<usize>>, pa: Seq<Vec<usize>>, queue: Seq<(usize, i64)>, q: int, p1: int, p2: int)
    requires
        first_link(ch, pa, queue, q, p1),
        first_link(ch, pa, queue, q, p2),
    ensures
        p1 == p2,
{
    if p1 < p2 {
        assert(queue[p1] == queue[p1]);
    } else if p2 < p1 {
        assert(queue[p2] == queue[p2]);
    }
}

proof fn lemma_found_at_push(ch: Seq<Vec<usize>>, pa: Seq<Vec<usize>>, queue: Seq<(usize, i64)>, e: (usize, i64), q: int, p: int)
    requires
        0 <= q < queue.len(),
        found_at(ch, pa, queue, q, p),
    ensures
        found_at(ch, pa, queue.push(e), q, p),
{
    let nq = queue.push(e);
    assert(nq[p] == queue[p]);
    assert(nq[q] == queue[q]);
    assert forall|o: int| #![trigger nq[o]] 0 <= o < p implies !ch[nq[o].0 as int]@.contains(nq[q].0)
        && !pa[nq[o].0 as int]@.contains(nq[q].0) by {
        assert(nq[o] == queue[o]);
    }
}

proof fn lemma_found_earlier_push(ch: Seq<Vec<usize>>, pa: Seq<Vec<usize>>, queue: Seq<(usize, i64)>, e: (usize, i64), q: int)
    requires
        0 <= q < queue.len(),
        found_earlier(ch, pa, queue, q),
    ensures
        found_earlier(ch, pa, queue.push(e), q),
{
    let p = choose|p: int| #[trigger] found_at(ch, pa, queue, q, p);
    lemma_found_at_push(ch, pa, queue, e, q, p);
}

/// An entry pushed behind a queue, found from the entry at `h`: no entry
/// before `h` links to it.
proof fn lemma_found_first(ch: Seq<Vec<usize>>, pa: Seq<Vec<usize>>, queue: Seq<(usize, i64)>, h: int, e: (usize, i64))
    requires
        0 <= h < queue.len(),
        forall|o: int| #![trigger queue[o]] 0 <= o < h ==> !ch[queue[o].0 as int]@.contains(e.0)
            && !pa[queue[o].0 as int]@.contains(e.0),
        if ch[queue[h].0 as int]@.contains(e.0) {
            e.1 == queue[h].1 + 1
        } else {
            pa[queue[h].0 as int]@.contains(e.0) && e.1 == queue[h].1 - 1
        },
    ensures
        found_at(ch, pa, queue.push(e), queue.len() as int, h),
        found_earlier(ch, pa, queue.push(e), queue.len() as int),
{
    let nq = queue.push(e);
    let q = queue.len() as int;
    assert(nq[q] == e);
    assert(nq[h] == queue[h]);
    assert forall|o: int| #![trigger nq[o]] 0 <= o < h implies !ch[nq[o].0 as int]@.contains(nq[q].0)
        && !pa[nq[o].0 as int]@.contains(nq[q].0) by {
        assert(nq[o] == queue[o]);
    }
    assert(found_at(ch, pa, nq, q, h));
}

/// Column `x` was found from a column `y` found before it: as `y`'s child,
/// one deeper, or as `y`'s parent, one shallower.
pub open spec fn has_source(ch: Seq<Vec<usize>>, pa: Seq<Vec<usize>>, seen: Seq<bool>, depth: Seq<i64>, x: int) -> bool {
    exists|y: int| 0 <= y < seen.len() && seen[y] && (
        (ch[y]@.contains(x as usize) && depth[x] == depth[y] + 1)
        || (pa[y]@.contains(x as usize) && depth[x] == depth[y] - 1))
}

/// Successor lists that name positions below `n`.
pub open spec fn lists_ok(ch: Seq<Vec<usize>>, pa: Seq<Vec<usize>>, n: int) -> bool {
    &&& ch.len() == n
    &&& pa.len() == n
    &&& forall|i: int, k: int| 0 <= i < n && 0 <= k < ch[i]@.len() ==> (#[trigger] ch[i]@[k]) < n
    &&& forall|i: int, k: int| 0 <= i < n && 0 <= k < pa[i]@.len() ==> (#[trigger] pa[i]@[k]) < n
}

proof fn lemma_both_edge_idx(ch: Seq<Vec<usize>>, pa: Seq<Vec<usize>>, n: int, i: int, j: int)
    requires
        lists_ok(ch, pa, n),
        0 <= i < n,
        0 <= j < n,
    ensures
        edge(both(ch, pa), i, j) <==> (ch[i]@.contains(j as usize) || pa[i]@.contains(j as usize)),
{
    let l = ch[i]@ + pa[i]@;
    assert(both(ch, pa)[i] == l);
    if l.contains(j as usize) {
        let k = choose|k: int| 0 <= k < l.len() && l[k] == j as usize;
        if k < ch[i]@.len() {
            assert(ch[i]@[k] == j as usize);
        } else {
            assert(pa[i]@[k - ch[i]@.len()] == j as usize);
        }
    }
    if ch[i]@.contains(j as usize) {
        let k = choose|k: int| 0 <= k < ch[i]@.len() && ch[i]@[k] == j as usize;
        assert(l[k] == j as usize);
    }
    if pa[i]@.contains(j as usize) {
        let k = choose|k: int| 0 <= k < pa[i]@.len() && pa[i]@[k] == j as usize;
        assert(l[ch[i]@.len() + k] == j as usize);
    }
}

/// The records of where the entries behind the first `q0` of a queue were
/// found from: right, at most `bound`, and in order; and exactly the first
/// `q0` entries are starting ones.
spec fn src_ok(ch: Seq<Vec<usize>>, pa: Seq<Vec<usize>>, queue: Seq<(usize, i64)>, src: Seq<int>, q0: int, bound: int, st: Set<int>) -> bool {
    &&& 0 <= q0 <= queue.len()
    &&& src.len() == queue.len()
    &&& forall|q: int| #![trigger queue[q]] 0 <= q < queue.len() ==> (q < q0 <==> st.contains(queue[q].0 as int))
    &&& forall|q: int| #![trigger src[q]] q0 <= q < queue.len() ==> found_at(ch, pa, queue, q, src[q]) && src[q] <= bound
    &&& forall|a: int, b: int| #![trigger src[a], src[b]] q0 <= a < b < queue.len() ==> src[a] <= src[b]
}

/// Recording that an entry pushed behind a queue was found from the entry
/// at `h` keeps the records right and in order.
proof fn lemma_src_push(ch: Seq<Vec<usize>>, pa: Seq<Vec<usize>>, queue: Seq<(usize, i64)>, e: (usize, i64), src: Seq<int>, q0: int, h: int, st: Set<int>)
    requires
        src_ok(ch, pa, queue, src, q0, h, st),
        !st.contains(e.0 as int),
        found_at(ch, pa, queue.push(e), queue.len() as int, h),
    ensures
        src_ok(ch, pa, queue.push(e), src.push(h), q0, h, st),
{
    let nq = queue.push(e);
    let ns = src.push(h);
    assert forall|q: int| #![trigger nq[q]] 0 <= q < nq.len() implies (q < q0 <==> st.contains(nq[q].0 as int)) by {
        if q < queue.len() {
            assert(nq[q] == queue[q]);
        }
    }
    assert forall|q: int| #![trigger ns[q]] q0 <= q < nq.len() implies found_at(ch, pa, nq, q, ns[q]) && ns[q] <= h by {
        if q < queue.len() {
            assert(ns[q] == src[q]);
            lemma_found_at_push(ch, pa, queue, e, q, src[q]);
        }
    }
    assert forall|a: int, b: int| #![trigger ns[a], ns[b]] q0 <= a < b < nq.len() implies ns[a] <= ns[b] by {
        assert(ns[a] == src[a]);
        if b < queue.len() {
            assert(ns[b] == src[b]);
        }
    }
}

/// Every column marked since `seen0` was found from `x` (at depth `d`):
/// as its child, one deeper, or as its parent, one shallower.
spec fn fresh_ok(ch: Seq<Vec<usize>>, pa: Seq<Vec<usize>>, seen: Seq<bool>, seen0: Seq<bool>, depth: Seq<i64>, x: int, d: int, n: int) -> bool {
    forall|z: int| 0 <= z < n && seen[z] && !seen0[z] ==> (
        (#[trigger] ch[x]@.contains(z as usize) && depth[z] == d + 1)
        || (pa[x]@.contains(z as usize) && depth[z] == d - 1))
}

/// The breadth search itself, over positions: starting from the marked
/// positions (all at depth 0, all queued), it marks every position that can
/// be reached, one deeper for a child and one shallower for a parent.
#[verifier::spinoff_prover]
#[verifier::rlimit(100)]
fn bfs(ch: &Vec<Vec<usize>>, pa: &Vec<Vec<usize>>, seen: Vec<bool>, depth: Vec<i64>, queue: Vec<(usize, i64)>) -> (r: (Vec<bool>, Vec<i64>, Vec<(usize, i64)>))
    requires
        lists_ok(ch@, pa@, ch@.len() as int),
        ch@.len() <= i64::MAX,
        seen@.len() == ch@.len(),
        depth@.len() == ch@.len(),
        queue@.len() == count_true(seen@),
        count_true(seen@) <= ch@.len(),
        forall|q: int| 0 <= q < queue@.len() ==> (#[trigger] queue@[q]).0 < ch@.len() && seen@[queue@[q].0 as int]
            && depth@[queue@[q].0 as int] == queue@[q].1 && queue@[q].1 == 0,
        forall|x: int| 0 <= x < ch@.len() && seen@[x] ==> exists|q: int| 0 <= q < queue@.len() && (#[trigger] queue@[q]).0 == x as usize,
        forall|q1: int, q2: int| 0 <= q1 < q2 < queue@.len() ==> (#[trigger] queue@[q1]).0 != (#[trigger] queue@[q2]).0,
    ensures
        r.0@.len() == ch@.len(),
        r.1@.len() == ch@.len(),
        marked(r.0@) == reachable(both(ch@, pa@), marked(seen@)),
        forall|x: int| marked(seen@).contains(x) ==> r.1@[x] == 0,
        forall|x: int| 0 <= x < ch@.len() && r.0@[x] && !marked(seen@).contains(x) ==> #[trigger] has_source(ch@, pa@, r.0@, r.1@, x),
        forall|q: int| 0 <= q < r.2@.len() ==> (#[trigger] r.2@[q]).0 < ch@.len() && r.0@[r.2@[q].0 as int]
            && r.1@[r.2@[q].0 as int] == r.2@[q].1,
        forall|x: int| 0 <= x < ch@.len() && r.0@[x] ==> exists|q: int| 0 <= q < r.2@.len() && (#[trigger] r.2@[q]).0 == x as usize,
        forall|q1: int, q2: int| 0 <= q1 < q2 < r.2@.len() ==> (#[trigger] r.2@[q1]).0 != (#[trigger] r.2@[q2]).0,
        forall|q: int| 0 <= q < r.2@.len() && !marked(seen@).contains(r.2@[q].0 as int) ==> #[trigger] found_earlier(ch@, pa@, r.2@, q),
        forall|q1: int, q2: int| 0 <= q1 < q2 < r.2@.len() && marked(seen@).contains((#[trigger] r.2@[q2]).0 as int)
            ==> marked(seen@).contains((#[trigger] r.2@[q1]).0 as int),
        forall|q1: int, q2: int, p1: int, p2: int| 0 <= q1 < q2 < r.2@.len()
            && #[trigger] first_link(ch@, pa@, r.2@, q1, p1) && #[trigger] first_link(ch@, pa@, r.2@, q2, p2)
            && !marked(seen@).contains(r.2@[q1].0 as int) && !marked(seen@).contains(r.2@[q2].0 as int) ==> p1 <= p2,
{
    let mut seen = seen;
    let mut depth = depth;
    let mut queue = queue;
    let n = ch.len();
    let ghost g = both(ch@, pa@);
    let ghost st = marked(seen@);
    proof {
        assert forall|x: int| st.contains(x) implies 0 <= x < n && seen@[x] && depth@[x] == 0 by {
            let q = choose|q: int| 0 <= q < queue@.len() && (#[trigger] queue@[q]).0 == x as usize;
        }
    }
    proof {
        assert forall|x: int| 0 <= x < n && seen@[x] implies #[trigger] reachable(g, st).contains(x) by {
            assert(within(g, st, 0).contains(x));
        }
    }
    proof {
        assert forall|q: int| 0 <= q < queue@.len() && !st.contains(queue@[q].0 as int) implies #[trigger] found_earlier(ch@, pa@, queue@, q) by {
            assert(seen@[queue@[q].0 as int]);
            assert(st.contains(queue@[q].0 as int));
        }
    }
    // Breadth-first: children one deeper, parents one shallower. `src`
    // records, for each entry behind the starting ones, the entry it was
    // found from.
    let ghost q0: int = queue@.len() as int;
    let ghost mut src: Seq<int> = Seq::new(queue@.len(), |i: int| 0int);
    proof {
        assert forall|q: int| #![trigger queue@[q]] 0 <= q < queue@.len() implies (q < q0 <==> st.contains(queue@[q].0 as int)) by {
            assert(seen@[queue@[q].0 as int]);
        }
    }
    let mut h: usize = 0;
    while h < queue.len()
        invariant
            src_ok(ch@, pa@, queue@, src, q0, h - 1, st),
            n == ch@.len(),
            n <= i64::MAX,
            lists_ok(ch@, pa@, n as int),
            g == both(ch@, pa@),
            seen@.len() == n,
            depth@.len() == n,
            h <= queue@.len(),
            queue@.len() == count_true(seen@),
            count_true(seen@) <= n,
            forall|q: int| 0 <= q < queue@.len() ==> (#[trigger] queue@[q]).0 < n && seen@[queue@[q].0 as int]
                && depth@[queue@[q].0 as int] == queue@[q].1
                && -q <= queue@[q].1 <= q,
            forall|x: int| 0 <= x < n && seen@[x] ==> exists|q: int| 0 <= q < queue@.len() && (#[trigger] queue@[q]).0 == x as usize,
            forall|q: int, y: int| 0 <= q < h && #[trigger] edge(g, (#[trigger] queue@[q]).0 as int, y) ==> seen@[y],
            forall|x: int| st.contains(x) ==> 0 <= x < n && seen@[x] && depth@[x] == 0,
            forall|x: int| 0 <= x < n && seen@[x] ==> #[trigger] reachable(g, st).contains(x),
            forall|x: int| 0 <= x < n && seen@[x] && !st.contains(x) ==> #[trigger] has_source(ch@, pa@, seen@, depth@, x),
            forall|q1: int, q2: int| 0 <= q1 < q2 < queue@.len() ==> (#[trigger] queue@[q1]).0 != (#[trigger] queue@[q2]).0,
            forall|q: int| 0 <= q < queue@.len() && !st.contains(queue@[q].0 as int) ==> #[trigger] found_earlier(ch@, pa@, queue@, q),
        decreases n - h,
    {
        let (x, d) = queue[h];
        let ghost h0 = h as int;
        assert(queue@[h0].0 == x && queue@[h0].1 == d);
        assert(-h0 <= d <= h0);
        assert(d < i64::MAX && d > i64::MIN + 1);
        let ghost seen0 = seen@;
        let ghost depth0 = depth@;
        let ghost queue0 = queue@;

        proof {
            assert(reachable(g, st).contains(x as int));
        }
        // Children, one deeper.
        let mut k: usize = 0;
        while k < ch[x].len()
            invariant
                n == ch@.len(),
                n <= i64::MAX,
                lists_ok(ch@, pa@, n as int),
                g == both(ch@, pa@),
                x < n,
                h0 < queue@.len(),
                queue@[h0] == (x, d),
                seen0.len() == n,
                depth0.len() == n,
                queue0.len() <= queue@.len(),
                forall|q: int| 0 <= q < queue0.len() ==> queue@[q] == queue0[q],
                -h0 <= d <= h0,
                seen@.len() == n,
                depth@.len() == n,
                k <= ch@[x as int]@.len(),
                queue@.len() == count_true(seen@),
                count_true(seen@) <= n,
                seen@[x as int],
                depth@[x as int] == d,
                forall|z: int| 0 <= z < n && #[trigger] seen0[z] ==> seen@[z] && depth@[z] == depth0[z],
                forall|m: int| 0 <= m < k ==> seen@[(#[trigger] ch@[x as int]@[m]) as int],
                forall|q: int| 0 <= q < queue@.len() ==> (#[trigger] queue@[q]).0 < n && seen@[queue@[q].0 as int]
                    && depth@[queue@[q].0 as int] == queue@[q].1
                    && -q <= queue@[q].1 <= q,
                forall|z: int| 0 <= z < n && seen@[z] ==> exists|q: int| 0 <= q < queue@.len() && (#[trigger] queue@[q]).0 == z as usize,
                forall|z: int| 0 <= z < n && seen@[z] ==> #[trigger] reachable(g, st).contains(z),
                forall|z: int| 0 <= z < n && seen@[z] && !seen0[z] ==> (#[trigger] ch@[x as int]@.contains(z as usize) && depth@[z] == d + 1),
                forall|q1: int, q2: int| 0 <= q1 < q2 < queue@.len() ==> (#[trigger] queue@[q1]).0 != (#[trigger] queue@[q2]).0,
                forall|q: int| 0 <= q < queue@.len() && !st.contains(queue@[q].0 as int) ==> #[trigger] found_earlier(ch@, pa@, queue@, q),
                h0 < queue0.len(),
                queue0[h0] == (x, d),
                forall|o: int, z: int| 0 <= o < h0 && #[trigger] edge(g, (#[trigger] queue0[o]).0 as int, z) ==> seen0[z],
                forall|z: int| #[trigger] st.contains(z) ==> seen0[z],
                src_ok(ch@, pa@, queue@, src, q0, h0, st),
            decreases ch@[x as int]@.len() - k,
        {
            let y = ch[x][k];
            let ghost q_old = queue@;
            let ghost s_old = seen@;
            let ghost d_old = depth@;
            assert(forall|z: int| 0 <= z < n && s_old[z] && !seen0[z] ==> (#[trigger] ch@[x as int]@.contains(z as usize) && d_old[z] == d + 1));
            if !seen[y] {
                proof {
                    lemma_count_set(seen@, y as int);
                    lemma_count_bound(seen@.update(y as int, true));
                }
                seen.set(y, true);
                depth.set(y, d + 1);
                queue.push((y, d + 1));
                proof {
                    assert(src_ok(ch@, pa@, queue@, src.push(h0), q0, h0, st)) by {
                        assert(queue@ == q_old.push((y, (d + 1) as i64)));
                        assert(q_old[h0] == (x, d));
                        assert forall|o: int| #![trigger q_old[o]] 0 <= o < h0 implies !ch@[q_old[o].0 as int]@.contains(y)
                            && !pa@[q_old[o].0 as int]@.contains(y) by {
                            assert(q_old[o] == queue0[o]);
                            lemma_both_edge_idx(ch@, pa@, n as int, queue0[o].0 as int, y as int);
                            if ch@[queue0[o].0 as int]@.contains(y) || pa@[queue0[o].0 as int]@.contains(y) {
                                assert(edge(g, queue0[o].0 as int, y as int));
                                assert(seen0[y as int]);
                            }
                        }
                        lemma_found_first(ch@, pa@, q_old, h0, (y, (d + 1) as i64));
                        assert(!st.contains(y as int)) by {
                            if st.contains(y as int) {
                                assert(seen0[y as int]);
                                assert(s_old[y as int]);
                            }
                        }
                        lemma_src_push(ch@, pa@, q_old, (y, (d + 1) as i64), src, q0, h0, st);
                    }
                    src = src.push(h0);
                }
                proof {
                    assert(queue@ == q_old.push((y, (d + 1) as i64)));
                    assert forall|q1: int, q2: int| 0 <= q1 < q2 < queue@.len() implies (#[trigger] queue@[q1]).0 != (#[trigger] queue@[q2]).0 by {
                        assert(queue@[q1] == q_old[q1]);
                        if q2 < q_old.len() {
                            assert(queue@[q2] == q_old[q2]);
                        } else {
                            assert(s_old[q_old[q1].0 as int]);
                        }
                    }
                    assert forall|q: int| 0 <= q < queue@.len() && !st.contains(queue@[q].0 as int) implies #[trigger] found_earlier(ch@, pa@, queue@, q) by {
                        if q < q_old.len() {
                            assert(queue@[q] == q_old[q]);
                            lemma_found_earlier_push(ch@, pa@, q_old, (y, (d + 1) as i64), q);
                        } else {
                            assert(q_old[h0] == (x, d));
                            assert forall|o: int| #![trigger q_old[o]] 0 <= o < h0 implies !ch@[q_old[o].0 as int]@.contains(y)
                                && !pa@[q_old[o].0 as int]@.contains(y) by {
                                assert(q_old[o] == queue0[o]);
                                lemma_both_edge_idx(ch@, pa@, n as int, queue0[o].0 as int, y as int);
                                if ch@[queue0[o].0 as int]@.contains(y) || pa@[queue0[o].0 as int]@.contains(y) {
                                    assert(edge(g, queue0[o].0 as int, y as int));
                                    assert(seen0[y as int]);
                                }
                            }
                            lemma_found_first(ch@, pa@, q_old, h0, (y, (d + 1) as i64));
                        }
                    }
                }
                proof {
                    assert(ch@[x as int]@.contains(y));
                    lemma_both_edge_idx(ch@, pa@, n as int, x as int, y as int);
                    assert(edge(g, x as int, y as int));
                    assert(reachable(g, st).contains(x as int));
                    let kk = choose|kk: nat| #[trigger] within(g, st, kk).contains(x as int);
                    assert(successors(g, within(g, st, kk)).contains(y as int));
                    assert(within(g, st, (kk + 1) as nat).contains(y as int));
                    assert forall|z: int| 0 <= z < n && z != y as int implies seen@[z] == s_old[z] && depth@[z] == d_old[z] by {}
                    assert(reachable(g, st).contains(y as int));
                    assert forall|z: int| 0 <= z < n && seen@[z] implies exists|q: int| 0 <= q < queue@.len() && (#[trigger] queue@[q]).0 == z as usize by {
                        if z == y as int {
                            assert(queue@[queue@.len() - 1].0 == y);
                        } else {
                            let q = choose|q: int| 0 <= q < q_old.len() && (#[trigger] q_old[q]).0 == z as usize;
                            assert(queue@[q] == q_old[q]);
                        }
                    }
                }
            }
            proof {
                assert(ch@[x as int]@[k as int] == y);
                assert(ch@[x as int]@.contains(y));
                assert forall|z: int| 0 <= z < n && seen@[z] && !seen0[z] implies (#[trigger] ch@[x as int]@.contains(z as usize) && depth@[z] == d + 1) by {
                    if z != y as int || s_old[z] {
                        assert(s_old[z]);
                        assert(depth@[z] == d_old[z]);
                    } else {
                        assert(z as usize == y);
                        assert(depth@[z] == d + 1);
                    }
                }
            }
            k += 1;
        }
        // Parents, one shallower.
        let mut k: usize = 0;
        while k < pa[x].len()
            invariant
                n == ch@.len(),
                n <= i64::MAX,
                lists_ok(ch@, pa@, n as int),
                g == both(ch@, pa@),
                x < n,
                h0 < queue@.len(),
                queue@[h0] == (x, d),
                seen0.len() == n,
                depth0.len() == n,
                queue0.len() <= queue@.len(),
                forall|q: int| 0 <= q < queue0.len() ==> queue@[q] == queue0[q],
                -h0 <= d <= h0,
                seen@.len() == n,
                depth@.len() == n,
                k <= pa@[x as int]@.len(),
                queue@.len() == count_true(seen@),
                count_true(seen@) <= n,
                seen@[x as int],
                depth@[x as int] == d,
                forall|z: int| 0 <= z < n && #[trigger] seen0[z] ==> seen@[z] && depth@[z] == depth0[z],
                forall|m: int| 0 <= m < ch@[x as int]@.len() ==> seen@[(#[trigger] ch@[x as int]@[m]) as int],
                forall|m: int| 0 <= m < k ==> seen@[(#[trigger] pa@[x as int]@[m]) as int],
                forall|q: int| 0 <= q < queue@.len() ==> (#[trigger] queue@[q]).0 < n && seen@[queue@[q].0 as int]
                    && depth@[queue@[q].0 as int] == queue@[q].1
                    && -q <= queue@[q].1 <= q,
                forall|z: int| 0 <= z < n && seen@[z] ==> exists|q: int| 0 <= q < queue@.len() && (#[trigger] queue@[q]).0 == z as usize,
                forall|z: int| 0 <= z < n && seen@[z] ==> #[trigger] reachable(g, st).contains(z),
                fresh_ok(ch@, pa@, seen@, seen0, depth@, x as int, d as int, n as int),
                forall|q1: int, q2: int| 0 <= q1 < q2 < queue@.len() ==> (#[trigger] queue@[q1]).0 != (#[trigger] queue@[q2]).0,
                forall|q: int| 0 <= q < queue@.len() && !st.contains(queue@[q].0 as int) ==> #[trigger] found_earlier(ch@, pa@, queue@, q),
                h0 < queue0.len(),
                queue0[h0] == (x, d),
                forall|o: int, z: int| 0 <= o < h0 && #[trigger] edge(g, (#[trigger] queue0[o]).0 as int, z) ==> seen0[z],
                forall|z: int| #[trigger] st.contains(z) ==> seen0[z],
                src_ok(ch@, pa@, queue@, src, q0, h0, st),
            decreases pa@[x as int]@.len() - k,
        {
            let y = pa[x][k];
            let ghost q_old = queue@;
            let ghost s_old = seen@;
            let ghost d_old = depth@;
            assert(fresh_ok(ch@, pa@, s_old, seen0, d_old, x as int, d as int, n as int));
            if !seen[y] {
                proof {
                    lemma_count_set(seen@, y as int);
                    lemma_count_bound(seen@.update(y as int, true));
                }
                seen.set(y, true);
                depth.set(y, d - 1);
                queue.push((y, d - 1));
                proof {
                    assert(src_ok(ch@, pa@, queue@, src.push(h0), q0, h0, st)) by {
                        assert(queue@ == q_old.push((y, (d - 1) as i64)));
                        assert(q_old[h0] == (x, d));
                        assert forall|o: int| #![trigger q_old[o]] 0 <= o < h0 implies !ch@[q_old[o].0 as int]@.contains(y)
                            && !pa@[q_old[o].0 as int]@.contains(y) by {
                            assert(q_old[o] == queue0[o]);
                            lemma_both_edge_idx(ch@, pa@, n as int, queue0[o].0 as int, y as int);
                            if ch@[queue0[o].0 as int]@.contains(y) || pa@[queue0[o].0 as int]@.contains(y) {
                                assert(edge(g, queue0[o].0 as int, y as int));
                                assert(seen0[y as int]);
                            }
                        }
                        assert(!ch@[x as int]@.contains(y)) by {
                            if ch@[x as int]@.contains(y) {
                                let m = choose|m: int| 0 <= m < ch@[x as int]@.len() && ch@[x as int]@[m] == y;
                                assert(s_old[y as int]);
                            }
                        }
                        assert(pa@[x as int]@[k as int] == y);
                        lemma_found_first(ch@, pa@, q_old, h0, (y, (d - 1) as i64));
                        assert(!st.contains(y as int)) by {
                            if st.contains(y as int) {
                                assert(seen0[y as int]);
                                assert(s_old[y as int]);
                            }
                        }
                        lemma_src_push(ch@, pa@, q_old, (y, (d - 1) as i64), src, q0, h0, st);
                    }
                    src = src.push(h0);
                }
                proof {
                    assert(queue@ == q_old.push((y, (d - 1) as i64)));
                    assert forall|q1: int, q2: int| 0 <= q1 < q2 < queue@.len() implies (#[trigger] queue@[q1]).0 != (#[trigger] queue@[q2]).0 by {
                        assert(queue@[q1] == q_old[q1]);
                        if q2 < q_old.len() {
                            assert(queue@[q2] == q_old[q2]);
                        } else {
                            assert(s_old[q_old[q1].0 as int]);
                        }
                    }
                    assert forall|q: int| 0 <= q < queue@.len() && !st.contains(queue@[q].0 as int) implies #[trigger] found_earlier(ch@, pa@, queue@, q) by {
                        if q < q_old.len() {
                            assert(queue@[q] == q_old[q]);
                            lemma_found_earlier_push(ch@, pa@, q_old, (y, (d - 1) as i64), q);
                        } else {
                            assert(q_old[h0] == (x, d));
                            assert forall|o: int| #![trigger q_old[o]] 0 <= o < h0 implies !ch@[q_old[o].0 as int]@.contains(y)
                                && !pa@[q_old[o].0 as int]@.contains(y) by {
                                assert(q_old[o] == queue0[o]);
                                lemma_both_edge_idx(ch@, pa@, n as int, queue0[o].0 as int, y as int);
                                if ch@[queue0[o].0 as int]@.contains(y) || pa@[queue0[o].0 as int]@.contains(y) {
                                    assert(edge(g, queue0[o].0 as int, y as int));
                                    assert(seen0[y as int]);
                                }
                            }
                            assert(!ch@[x as int]@.contains(y)) by {
                                if ch@[x as int]@.contains(y) {
                                    let m = choose|m: int| 0 <= m < ch@[x as int]@.len() && ch@[x as int]@[m] == y;
                                    assert(s_old[y as int]);
                                }
                            }
                            lemma_found_first(ch@, pa@, q_old, h0, (y, (d - 1) as i64));
                        }
                    }
                }
                proof {
                    assert(pa@[x as int]@.contains(y));
                    lemma_both_edge_idx(ch@, pa@, n as int, x as int, y as int);
                    assert(edge(g, x as int, y as int));
                    assert(reachable(g, st).contains(x as int));
                    let kk = choose|kk: nat| #[trigger] within(g, st, kk).contains(x as int);
                    assert(successors(g, within(g, st, kk)).contains(y as int));
                    assert(within(g, st, (kk + 1) as nat).contains(y as int));
                    assert forall|z: int| 0 <= z < n && z != y as int implies seen@[z] == s_old[z] && depth@[z] == d_old[z] by {}
                    assert(reachable(g, st).contains(y as int));
                    assert forall|z: int| 0 <= z < n && seen@[z] implies exists|q: int| 0 <= q < queue@.len() && (#[trigger] queue@[q]).0 == z as usize by {
                        if z == y as int {
                            assert(queue@[queue@.len() - 1].0 == y);
                        } else {
                            let q = choose|q: int| 0 <= q < q_old.len() && (#[trigger] q_old[q]).0 == z as usize;
                            assert(queue@[q] == q_old[q]);
                        }
                    }
                }
            }
            proof {
                assert(pa@[x as int]@[k as int] == y);
                assert(pa@[x as int]@.contains(y));
                assert forall|z: int| 0 <= z < n && seen@[z] && !seen0[z] implies (
                    (#[trigger] ch@[x as int]@.contains(z as usize) && depth@[z] == d + 1)
                    || (pa@[x as int]@.contains(z as usize) && depth@[z] == d - 1)) by {
                    if s_old[z] {
                        assert(fresh_ok(ch@, pa@, s_old, seen0, d_old, x as int, d as int, n as int));
                    }
                    if z != y as int || s_old[z] {
                        assert(s_old[z]);
                        assert(depth@[z] == d_old[z]);
                        if !(ch@[x as int]@.contains(z as usize) && d_old[z] == d + 1) {
                            assert(pa@[x as int]@.contains(z as usize) && d_old[z] == d - 1);
                        }
                    } else {
                        assert(z as usize == y);
                        assert(depth@[z] == d - 1);
                    }
                }
            }
            k += 1;
        }
        h += 1;
        proof {
            assert forall|q: int, y: int| 0 <= q < h && #[trigger] edge(g, (#[trigger] queue@[q]).0 as int, y) implies seen@[y] by {
                if q < h0 {
                    assert(queue@[q] == queue0[q]);
                    assert(edge(g, queue0[q].0 as int, y));
                    assert(seen0[y]);
                } else {
                    lemma_both_edge_idx(ch@, pa@, n as int, x as int, y);
                    if ch@[x as int]@.contains(y as usize) {
                        let m = choose|m: int| 0 <= m < ch@[x as int]@.len() && ch@[x as int]@[m] == y as usize;
                    } else {
                        let m = choose|m: int| 0 <= m < pa@[x as int]@.len() && pa@[x as int]@[m] == y as usize;
                    }
                }
            }
            assert forall|z: int| st.contains(z) implies 0 <= z < n && seen@[z] && depth@[z] == 0 by {
                assert(seen0[z]);
            }
            assert forall|z: int| 0 <= z < n && seen@[z] && !st.contains(z) implies #[trigger] has_source(ch@, pa@, seen@, depth@, z) by {
                if seen0[z] {
                    assert(has_source(ch@, pa@, seen0, depth0, z));
                    let y = choose|y: int| 0 <= y < seen0.len() && seen0[y] && (
                        (ch@[y]@.contains(z as usize) && depth0[z] == depth0[y] + 1)
                        || (pa@[y]@.contains(z as usize) && depth0[z] == depth0[y] - 1));
                    assert(seen@[y] && depth@[y] == depth0[y]);
                    assert(depth@[z] == depth0[z]);
                } else {
                    assert(seen@[x as int]);
                    assert(ch@[x as int]@.contains(z as usize) || pa@[x as int]@.contains(z as usize));
                }
            }
        }
    }
    // Every column that can be reached has been found.
    proof {
        let a = Set::new(|z: int| 0 <= z < n && seen@[z]);
        assert forall|y: int| successors(g, a).contains(y) implies a.contains(y) by {
            let z = choose|z: int| a.contains(z) && #[trigger] edge(g, z, y);
            let q = choose|q: int| 0 <= q < queue@.len() && (#[trigger] queue@[q]).0 == z as usize;
            assert(edge(g, queue@[q].0 as int, y));
        }
        assert forall|z: int| reachable(g, st).contains(z) implies a.contains(z) by {
            let kk = choose|kk: nat| #[trigger] within(g, st, kk).contains(z);
            lemma_closed_contains(g, st, a, kk);
        }
    }
    proof {
        assert(marked(seen@) =~= reachable(g, st)) by {
            assert forall|z: int| reachable(g, st).contains(z) implies marked(seen@).contains(z) by {}
            assert forall|z: int| marked(seen@).contains(z) implies reachable(g, st).contains(z) by {}
        }
    }
    proof {
        assert forall|q1: int, q2: int, p1: int, p2: int| 0 <= q1 < q2 < queue@.len()
            && #[trigger] first_link(ch@, pa@, queue@, q1, p1) && #[trigger] first_link(ch@, pa@, queue@, q2, p2)
            && !st.contains(queue@[q1].0 as int) && !st.contains(queue@[q2].0 as int) implies p1 <= p2 by {
            assert(q0 <= q1);
            assert(found_at(ch@, pa@, queue@, q1, src[q1]));
            assert(found_at(ch@, pa@, queue@, q2, src[q2]));
            lemma_first_link_unique(ch@, pa@, queue@, q1, p1, src[q1]);
            lemma_first_link_unique(ch@, pa@, queue@, q2, p2, src[q2]);
        }
        assert forall|q1: int, q2: int| 0 <= q1 < q2 < queue@.len() && st.contains((#[trigger] queue@[q2]).0 as int)
            implies st.contains((#[trigger] queue@[q1]).0 as int) by {}
    }
    let r = (seen, depth, queue);
    assert forall|x: int| 0 <= x < n && r.0@[x] implies exists|q: int| 0 <= q < r.2@.len() && (#[trigger] r.2@[q]).0 == x as usize by {
        let q = choose|q: int| 0 <= q < r.2@.len() && (#[trigger] r.2@[q]).0 == x as usize;
    }
    r
}

proof fn lemma_count_zero(s: Seq<bool>)
    requires
        forall|x: int| 0 <= x < s.len() ==> !s[x],
    ensures
        count_true(s) == 0,
    decreases s.len(),
{
    if s.len() > 0 {
        lemma_count_zero(s.drop_last());
    }
}

// ---------------------------------------------------------------------------
// Shaping the column lineage
// ---------------------------------------------------------------------------

/// The variables of the column lineage query.
pub open spec fn column_vars_v(environment_id: u64, node_unique_id: Seq<char>) -> JsonV {
    JsonV::Object(seq![
        ("environmentId"@, u64_v(environment_id)),
        ("nodeUniqueId"@, JsonV::Str(node_unique_id)),
    ])
}

/// `{"environmentId": .., "nodeUniqueId": ..}`.
pub fn column_lineage_vars(environment_id: u64, node_unique_id: &str) -> (r: Json)
    ensures
        r@ == column_vars_v(environment_id, node_unique_id@),
{
    let r = object_of(vec![
        entry("environmentId", Json::from_u64(environment_id)),
        entry("nodeUniqueId", Json::str(node_unique_id)),
    ]);
    assert(r@->Object_0 =~= column_vars_v(environment_id, node_unique_id@)->Object_0);
    r
}

/// The columns of an answer to the column lineage query.
pub open spec fn lineage_columns_v(data: JsonV) -> Seq<JsonV> {
    match as_array_v(at_v(at_v(data, "column"@), "lineage"@)) {
        Some(a) => a,
        None => Seq::empty(),
    }
}

/// `data["column"]["lineage"]`, or no columns.
pub fn lineage_columns(data: &Json) -> (r: Vec<Json>)
    ensures
        vview(r@) == lineage_columns_v(data@),
{
    let column = at(data, "column");
    match array_at(&column, "lineage") {
        Some(a) => {
            proof { lemma_array_view(*a); }
            let mut out: Vec<Json> = Vec::new();
            let mut i: usize = 0;
            while i < a.len()
                invariant
                    i <= a@.len(),
                    out@.len() == i,
                    forall|x: int| 0 <= x < i ==> (#[trigger] out@[x])@ == a@[x]@,
                decreases a@.len() - i,
            {
                out.push(clone_json(&a[i]));
                i += 1;
            }
            assert(vview(out@) =~= lineage_columns_v(data@));
            out
        },
        None => {
            let out: Vec<Json> = Vec::new();
            assert(vview(out@) =~= lineage_columns_v(data@));
            out
        },
    }
}

/// The depth listed for an id.
pub open spec fn depth_of(ds: Seq<(Seq<char>, i64)>, id: Seq<char>) -> Option<i64>
    decreases ds.len(),
{
    if ds.len() == 0 {
        None
    } else if ds.last().0 == id {
        Some(ds.last().1)
    } else {
        depth_of(ds.drop_last(), id)
    }
}

/// The depth of a column: the one listed for its id, else 0.
pub open spec fn col_depth_v(ds: Seq<(Seq<char>, i64)>, col: JsonV) -> i64 {
    let id = match uid_of(col) { Some(u) => u, None => Seq::empty() };
    match depth_of(ds, id) {
        Some(d) => d,
        None => 0,
    }
}

/// The columns on one side of the model: downstream (depth at least 0)
/// or upstream (depth at most 0).
pub open spec fn on_side_v(cols: Seq<JsonV>, ds: Seq<(Seq<char>, i64)>, downstream: bool) -> Seq<JsonV>
    decreases cols.len(),
{
    if cols.len() == 0 {
        Seq::empty()
    } else {
        let rest = on_side_v(cols.drop_last(), ds, downstream);
        let d = col_depth_v(ds, cols.last());
        if (downstream && d >= 0) || (!downstream && d <= 0) { rest.push(cols.last()) } else { rest }
    }
}

/// The columns with their `depth` replaced by the listed one, where one is listed.
pub open spec fn with_depths_v(cols: Seq<JsonV>, ds: Seq<(Seq<char>, i64)>) -> Seq<JsonV> {
    Seq::new(cols.len(), |i: int| match uid_of(cols[i]) {
        Some(u) => match depth_of(ds, u) {
            Some(d) => set_field_v(cols[i], "depth"@, i64_v(d)),
            None => cols[i],
        },
        None => cols[i],
    })
}

/// The depth listed for an id.
pub fn find_depth(ds: &Vec<(String, i64)>, id: &str) -> (r: Option<i64>)
    ensures
        r == depth_of(depths_view(ds@), id@),
{
    let ghost dv = depths_view(ds@);
    let mut k: usize = ds.len();
    assert(dv.take(k as int) =~= dv);
    while k > 0
        invariant
            k <= ds@.len(),
            dv == depths_view(ds@),
            depth_of(dv, id@) == depth_of(dv.take(k as int), id@),
        decreases k,
    {
        assert(dv.take(k as int).drop_last() =~= dv.take(k - 1));
        assert(dv.take(k as int).last() == dv[k - 1]);
        if str_eq(ds[k - 1].0.as_str(), id) {
            return Some(ds[k - 1].1);
        }
        k -= 1;
    }
    None
}

/// Keeps the columns on one side of the model, by the given depths.
pub fn filter_by_depth(columns: &Vec<Json>, ds: &Vec<(String, i64)>, downstream_only: bool) -> (r: Vec<Json>)
    ensures
        vview(r@) == on_side_v(vview(columns@), depths_view(ds@), downstream_only),
{
    let ghost cv = vview(columns@);
    let mut out: Vec<Json> = Vec::new();
    let mut i: usize = 0;
    while i < columns.len()
        invariant
            i <= columns@.len(),
            cv == vview(columns@),
            vview(out@) == on_side_v(cv.take(i as int), depths_view(ds@), downstream_only),
        decreases columns@.len() - i,
    {
        let col = &columns[i];
        assert(cv.take(i + 1).drop_last() =~= cv.take(i as int));
        assert(cv.take(i + 1).last() == col@);
        let d = match node_uid(col) {
            Some(u) => find_depth(ds, u),
            None => {
                let e = String::new();
                find_depth(ds, e.as_str())
            },
        };
        let depth: i64 = match d {
            Some(x) => x,
            None => 0,
        };
        if (downstream_only && depth >= 0) || (!downstream_only && depth <= 0) {
            let ghost before = out@;
            out.push(clone_json(col));
            assert(vview(out@) =~= vview(before).push(col@));
        }
        i += 1;
    }
    assert(cv.take(columns@.len() as int) =~= cv);
    out
}

/// Writes the given depths into the columns' `depth` field.
pub fn rewrite_depths(columns: &mut Vec<Json>, ds: &Vec<(String, i64)>)
    ensures
        vview(final(columns)@) == with_depths_v(vview(old(columns)@), depths_view(ds@)),
{
    let ghost cv = vview(columns@);
    let n = columns.len();
    let mut i: usize = 0;
    while i < n
        invariant
            n == columns@.len(),
            i <= n,
            cv.len() == n,
            forall|x: int| i <= x < n ==> (#[trigger] columns@[x])@ == cv[x],
            forall|x: int| 0 <= x < i ==> (#[trigger] columns@[x])@ == with_depths_v(cv, depths_view(ds@))[x],
        decreases n - i,
    {
        let d = match node_uid(&columns[i]) {
            Some(u) => find_depth(ds, u),
            None => None,
        };
        if let Some(depth) = d {
            let old_col = clone_json(&columns[i]);
            let new_col = set_field(old_col, "depth", Json::from_i64(depth));
            columns.set(i, new_col);
        }
        i += 1;
    }
    assert(vview(columns@) =~= with_depths_v(cv, depths_view(ds@)));
}

/// The column lineage shown for a model, given the depths found before
/// and after restricting it to one side.
pub open spec fn shaped_v(data: JsonV, target: Seq<char>, downstream_only: bool, upstream_only: bool,
    ds1: Seq<(Seq<char>, i64)>, ds2: Seq<(Seq<char>, i64)>, r: JsonV) -> bool {
    let all = lineage_columns_v(data);
    let kept = if downstream_only || upstream_only { on_side_v(all, ds1, downstream_only) } else { all };
    &&& (downstream_only || upstream_only) ==> depths_ok(all, target, ds1)
    &&& depths_ok(kept, target, ds2)
    &&& r == JsonV::Array(with_depths_v(kept, ds2))
}

/// The column lineage of a model as the `lineage columns` command shows
/// it: the columns of the answer, restricted to one side of the model when
/// asked, each with its depth relative to the model's own columns (negative
/// upstream, positive downstream).
pub fn shape_column_lineage(data: &Json, target: &str, downstream_only: bool, upstream_only: bool) -> (r: Json)
    requires
        lineage_columns_v(data@).len() <= i64::MAX,
    ensures
        exists|ds1: Seq<(Seq<char>, i64)>, ds2: Seq<(Seq<char>, i64)>|
            #[trigger] shaped_v(data@, target@, downstream_only, upstream_only, ds1, ds2, r@),
{
    let all = lineage_columns(data);
    let ghost av = vview(all@);
    let ghost mut d1: Seq<(Seq<char>, i64)> = Seq::empty();
    let mut cols = if downstream_only || upstream_only {
        let ds1 = compute_relative_depths(&all, target);
        let kept = filter_by_depth(&all, &ds1, downstream_only);
        proof {
            lemma_side_len(av, depths_view(ds1@), downstream_only);
            d1 = depths_view(ds1@);
        }
        kept
    } else {
        all
    };
    let ds2 = compute_relative_depths(&cols, target);
    rewrite_depths(&mut cols, &ds2);
    let r = array_of(cols);
    assert(shaped_v(data@, target@, downstream_only, upstream_only, d1, depths_view(ds2@), r@));
    r
}

proof fn lemma_side_len(cols: Seq<JsonV>, ds: Seq<(Seq<char>, i64)>, downstream: bool)
    ensures
        on_side_v(cols, ds, downstream).len() <= cols.len(),
    decreases cols.len(),
{
    if cols.len() > 0 {
        lemma_side_len(cols.drop_last(), ds, downstream);
    }
}

} // verus!
