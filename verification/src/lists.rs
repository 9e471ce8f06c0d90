//! Lists of texts used as sets, plain or kept in order.
use vstd::prelude::*;

use crate::json::{chars_lt, lemma_chars_lt_total, lemma_chars_lt_trans};
use crate::json::str_lt;
use crate::lineage::index_of;
use crate::text::str_eq;

verus! {

/// The texts of a list, as a set.
pub open spec fn text_set(v: Seq<String>) -> Set<Seq<char>> {
    Set::new(|s: Seq<char>| exists|i: int| 0 <= i < v.len() && #[trigger] v[i]@ == s)
}

/// No text occurs twice in the list.
pub open spec fn distinct_texts(v: Seq<String>) -> bool {
    forall|i: int, j: int| 0 <= i < j < v.len() ==> (#[trigger] v[i])@ != (#[trigger] v[j])@
}

/// Whether the list holds the text.
pub fn has_text(v: &Vec<String>, s: &str) -> (r: bool)
    ensures
        r == text_set(v@).contains(s@),
{
    match index_of(v, s) {
        Some(i) => {
            assert(v@[i as int]@ == s@);
            true
        },
        None => false,
    }
}

/// Appends the text unless the list already holds it.
pub fn add_text(v: &mut Vec<String>, s: &str)
    requires
        distinct_texts(old(v)@),
    ensures
        distinct_texts(final(v)@),
        text_set(final(v)@) == text_set(old(v)@).insert(s@),
        final(v)@.len() >= old(v)@.len(),
        forall|i: int| 0 <= i < old(v)@.len() ==> (#[trigger] final(v)@[i]) == old(v)@[i],
{
    let found = index_of(v, s);
    if found.is_none() {
        v.push(s.to_owned());
        assert forall|i: int, j: int| 0 <= i < j < v@.len() implies (#[trigger] v@[i])@ != (#[trigger] v@[j])@ by {
            if j == v@.len() - 1 {
                assert(old(v)@[i]@ != s@);
            } else {
                assert(v@[i] == old(v)@[i] && v@[j] == old(v)@[j]);
            }
        }
        assert(text_set(v@) =~= text_set(old(v)@).insert(s@)) by {
            assert(v@[v@.len() - 1]@ == s@);
            assert forall|t: Seq<char>| text_set(v@).contains(t) implies text_set(old(v)@).insert(s@).contains(t) by {
                let i = choose|i: int| 0 <= i < v@.len() && #[trigger] v@[i]@ == t;
                if i < old(v)@.len() {
                    assert(old(v)@[i]@ == t);
                }
            }
            assert forall|t: Seq<char>| text_set(old(v)@).contains(t) implies text_set(v@).contains(t) by {
                let i = choose|i: int| 0 <= i < old(v)@.len() && #[trigger] old(v)@[i]@ == t;
                assert(v@[i]@ == t);
            }
        }
    } else {
        let i = found.unwrap();
        assert(v@[i as int]@ == s@);
        assert(text_set(v@) =~= text_set(old(v)@).insert(s@));
    }
}

/// The list is in strictly increasing order of texts.
pub open spec fn sorted_texts(v: Seq<String>) -> bool {
    forall|i: int, j: int| 0 <= i < j < v.len() ==> chars_lt((#[trigger] v[i])@, (#[trigger] v[j])@)
}

/// Puts a text in its place in a list kept in strictly increasing order,
/// unless the list already holds it.
pub fn insert_sorted(v: &mut Vec<String>, s: &str)
    requires
        sorted_texts(old(v)@),
    ensures
        sorted_texts(final(v)@),
        text_set(final(v)@) == text_set(old(v)@).insert(s@),
{
    let ghost o = v@;
    let mut p: usize = 0;
    while p < v.len() && str_lt(v[p].as_str(), s)
        invariant
            p <= v@.len(),
            v@ == o,
            forall|k: int| 0 <= k < p ==> chars_lt((#[trigger] o[k])@, s@),
        decreases v@.len() - p,
    {
        p += 1;
    }
    if p < v.len() && str_eq(v[p].as_str(), s) {
        assert(text_set(v@) =~= text_set(o).insert(s@)) by {
            assert(o[p as int]@ == s@);
        }
        return;
    }
    v.insert(p, s.to_owned());
    proof {
        assert(v@ == o.insert(p as int, v@[p as int]));
        assert(v@[p as int]@ == s@);
        if p < o.len() {
            lemma_chars_lt_total(o[p as int]@, s@);
        }
        assert forall|i: int, j: int| 0 <= i < j < v@.len() implies chars_lt((#[trigger] v@[i])@, (#[trigger] v@[j])@) by {
            if j < p {
                assert(v@[i] == o[i] && v@[j] == o[j]);
            } else if j == p {
                assert(v@[i] == o[i]);
            } else if i < p {
                assert(v@[i] == o[i] && v@[j] == o[j - 1]);
                if i < j - 1 {
                    assert(chars_lt(o[i]@, o[j - 1]@));
                }
            } else if i == p {
                assert(v@[j] == o[j - 1]);
                assert(chars_lt(s@, o[p as int]@));
                if j - 1 > p {
                    assert(chars_lt(o[p as int]@, o[j - 1]@));
                    lemma_chars_lt_trans(s@, o[p as int]@, o[j - 1]@);
                }
            } else {
                assert(v@[i] == o[i - 1] && v@[j] == o[j - 1]);
            }
        }
        assert(text_set(v@) =~= text_set(o).insert(s@)) by {
            assert forall|t: Seq<char>| text_set(v@).contains(t) implies text_set(o).insert(s@).contains(t) by {
                let i = choose|i: int| 0 <= i < v@.len() && #[trigger] v@[i]@ == t;
                if i < p {
                    assert(o[i]@ == t);
                } else if i > p {
                    assert(o[i - 1]@ == t);
                }
            }
            assert forall|t: Seq<char>| text_set(o).insert(s@).contains(t) implies text_set(v@).contains(t) by {
                if t == s@ {
                    assert(v@[p as int]@ == t);
                } else {
                    let i = choose|i: int| 0 <= i < o.len() && #[trigger] o[i]@ == t;
                    if i < p {
                        assert(v@[i]@ == t);
                    } else {
                        assert(v@[i + 1]@ == t);
                    }
                }
            }
        }
    }
}

} // verus!
