//! Sorted lists of the values of a table.
use vstd::prelude::*;

use crate::order::{
    is_ranked, ranked, ranked_is_a_stable_sort, sorted_lists_are_settled, SortKey,
};
use crate::table::{lemma_name, lemma_row, lookup, names_differ, rows_map};

verus! {

/// Whether a list holds each value of a table once and nothing else. `name` says which name a value
/// belongs to.
pub open spec fn one_of_each<M>(
    list: Seq<M>,
    m: Map<Seq<char>, M>,
    name: spec_fn(M) -> Seq<char>,
) -> bool {
    &&& forall|i: int|
        0 <= i < list.len() ==> lookup(m, name(#[trigger] list[i])) == Some(list[i])
    &&& forall|i: int, j: int|
        0 <= i < j < list.len() ==> name(#[trigger] list[i]) != name(#[trigger] list[j])
    &&& forall|k: Seq<char>| #[trigger]
        m.contains_key(k) ==> exists|i: int| 0 <= i < list.len() && name(#[trigger] list[i]) == k
}

/// Whether a list holds each value of a table once and nothing else, in the order of the keys.
pub open spec fn is_listing<M>(
    list: Seq<M>,
    m: Map<Seq<char>, M>,
    key: spec_fn(M) -> SortKey,
    name: spec_fn(M) -> Seq<char>,
) -> bool {
    is_ranked(list, key) && one_of_each(list, m, name)
}

/// The values of a table in the order of the keys.
pub open spec fn listing<M>(
    m: Map<Seq<char>, M>,
    key: spec_fn(M) -> SortKey,
    name: spec_fn(M) -> Seq<char>,
) -> Seq<M> {
    choose|list: Seq<M>| is_listing(list, m, key, name)
}

/// A list of the values of a table, once sorted, is a listing of it.
pub proof fn lemma_sorted_listing<M>(
    s: Seq<M>,
    m: Map<Seq<char>, M>,
    key: spec_fn(M) -> SortKey,
    name: spec_fn(M) -> Seq<char>,
)
    requires
        one_of_each(s, m, name),
    ensures
        is_listing(ranked(s, key), m, key, name),
{
    broadcast use vstd::seq_lib::group_to_multiset_ensures;

    let t = ranked(s, key);
    ranked_is_a_stable_sort(s, key);
    assert(s.no_duplicates()) by {
        assert forall|i: int, j: int| 0 <= i < s.len() && 0 <= j < s.len() && i != j implies s[i]
            != s[j] by {
            if i < j {
                assert(name(s[i]) != name(s[j]));
            } else {
                assert(name(s[j]) != name(s[i]));
            }
        }
    }
    s.lemma_multiset_has_no_duplicates();
    t.lemma_multiset_has_no_duplicates_conv();
    assert forall|i: int| 0 <= i < t.len() implies lookup(m, name(#[trigger] t[i])) == Some(t[i]) by {
        assert(t.contains(t[i]));
        assert(t.to_multiset().contains(t[i]));
        assert(s.contains(t[i]));
        let a = choose|a: int| 0 <= a < s.len() && s[a] == t[i];
        assert(lookup(m, name(s[a])) == Some(s[a]));
    }
    assert forall|i: int, j: int| 0 <= i < j < t.len() implies name(#[trigger] t[i]) != name(
        #[trigger] t[j],
    ) by {
        assert(t[i] != t[j]);
        assert(lookup(m, name(t[i])) == Some(t[i]));
        assert(lookup(m, name(t[j])) == Some(t[j]));
    }
    assert forall|k: Seq<char>| #[trigger] m.contains_key(k) implies exists|i: int|
        0 <= i < t.len() && name(#[trigger] t[i]) == k by {
        let a = choose|a: int| 0 <= a < s.len() && name(#[trigger] s[a]) == k;
        assert(s.contains(s[a]));
        assert(s.to_multiset().contains(s[a]));
        assert(t.contains(s[a]));
        let i = choose|i: int| 0 <= i < t.len() && t[i] == s[a];
        assert(name(t[i]) == k);
    }
}

/// The values of the rows of a table are all its values, each once, where each stands under its own
/// name.
pub proof fn lemma_row_values<M>(rows: Seq<(Seq<char>, M)>, name: spec_fn(M) -> Seq<char>)
    requires
        names_differ(rows),
        forall|k: Seq<char>| #[trigger]
            rows_map(rows).contains_key(k) ==> k == name(rows_map(rows)[k]),
    ensures
        one_of_each(rows.map_values(|row: (Seq<char>, M)| row.1), rows_map(rows), name),
{
    let m = rows_map(rows);
    let list = rows.map_values(|row: (Seq<char>, M)| row.1);
    assert forall|i: int| 0 <= i < list.len() implies #[trigger] list[i] == rows[i].1 && rows[i].0
        == name(list[i]) && lookup(m, name(list[i])) == Some(list[i]) by {
        lemma_row(rows, i);
    }
    assert forall|i: int, j: int| 0 <= i < j < list.len() implies name(#[trigger] list[i]) != name(
        #[trigger] list[j],
    ) by {
        assert(rows[i].0 != rows[j].0);
    }
    assert forall|k: Seq<char>| #[trigger] m.contains_key(k) implies exists|i: int|
        0 <= i < list.len() && name(#[trigger] list[i]) == k by {
        let i = lemma_name(rows, k);
        assert(name(list[i]) == k);
    }
}

/// A table has only one listing, as long as values with different names have different keys.
pub proof fn listings_are_settled<M>(
    list: Seq<M>,
    m: Map<Seq<char>, M>,
    key: spec_fn(M) -> SortKey,
    name: spec_fn(M) -> Seq<char>,
)
    requires
        is_listing(list, m, key, name),
        forall|x: M, y: M| name(x) != name(y) ==> #[trigger] key(x) != #[trigger] key(y),
    ensures
        listing(m, key, name) == list,
{
    let other = listing(m, key, name);
    assert(is_listing(other, m, key, name));
    lemma_listing_length(list, other, m, key, name);
    lemma_listing_length(other, list, m, key, name);
    assert forall|i: int| 0 <= i < list.len() implies other.contains(#[trigger] list[i]) by {
        let k = name(list[i]);
        assert(lookup(m, k) == Some(list[i]));
        assert(m.contains_key(k));
        let j = choose|j: int| 0 <= j < other.len() && name(#[trigger] other[j]) == k;
        assert(lookup(m, name(other[j])) == Some(other[j]));
        assert(other[j] == list[i]);
    }
    sorted_lists_are_settled(list, other, key);
}

proof fn lemma_listing_length<M>(
    a: Seq<M>,
    b: Seq<M>,
    m: Map<Seq<char>, M>,
    key: spec_fn(M) -> SortKey,
    name: spec_fn(M) -> Seq<char>,
)
    requires
        is_listing(a, m, key, name),
        is_listing(b, m, key, name),
    ensures
        a.len() <= b.len(),
{
    assert(a.no_duplicates()) by {
        assert forall|i: int, j: int| 0 <= i < a.len() && 0 <= j < a.len() && i != j implies a[i]
            != a[j] by {
            if i < j {
                assert(name(a[i]) != name(a[j]));
            } else {
                assert(name(a[j]) != name(a[i]));
            }
        }
    }
    a.unique_seq_to_set();
    b.lemma_cardinality_of_set();
    assert(a.to_set().subset_of(b.to_set())) by {
        assert forall|x: M| a.to_set().contains(x) implies b.to_set().contains(x) by {
            let i = choose|i: int| 0 <= i < a.len() && a[i] == x;
            assert(lookup(m, name(a[i])) == Some(a[i]));
            assert(m.contains_key(name(a[i])));
            let j = choose|j: int| 0 <= j < b.len() && name(#[trigger] b[j]) == name(a[i]);
            assert(lookup(m, name(b[j])) == Some(b[j]));
            assert(b[j] == x);
            assert(b.contains(x));
        }
    }
    vstd::set_lib::lemma_len_subset(a.to_set(), b.to_set());
}

/// A table with finitely many rows, each under the name of its value, has a listing.
pub proof fn listings_exist<M>(
    m: Map<Seq<char>, M>,
    key: spec_fn(M) -> SortKey,
    name: spec_fn(M) -> Seq<char>,
)
    requires
        m.dom().finite(),
        forall|k: Seq<char>| #[trigger] m.contains_key(k) ==> k == name(m[k]),
    ensures
        is_listing(listing(m, key, name), m, key, name),
{
    let unsorted = lemma_unsorted_listing(m, name);
    lemma_sorted_listing(unsorted, m, key, name);
}

proof fn lemma_unsorted_listing<M>(m: Map<Seq<char>, M>, name: spec_fn(M) -> Seq<char>) -> (list:
    Seq<M>)
    requires
        m.dom().finite(),
        forall|k: Seq<char>| #[trigger] m.contains_key(k) ==> k == name(m[k]),
    ensures
        one_of_each(list, m, name),
    decreases m.dom().len(),
{
    if m.dom().len() == 0 {
        assert forall|k: Seq<char>| !m.contains_key(k) by {
            if m.contains_key(k) {
                assert(m.dom().contains(k));
                vstd::set_lib::lemma_len_subset(set![k], m.dom());
            }
        }
        Seq::empty()
    } else {
        let k = m.dom().choose();
        let rest = m.remove(k);
        assert(rest.dom() =~= m.dom().remove(k));
        let before = lemma_unsorted_listing(rest, name);
        let list = before.push(m[k]);
        assert forall|i: int| 0 <= i < list.len() implies lookup(m, name(#[trigger] list[i]))
            == Some(list[i]) by {
            if i < before.len() {
                assert(lookup(rest, name(before[i])) == Some(before[i]));
            }
        }
        assert forall|i: int, j: int| 0 <= i < j < list.len() implies name(#[trigger] list[i])
            != name(#[trigger] list[j]) by {
            assert(lookup(rest, name(before[i])) == Some(before[i]));
            if j < before.len() {
                assert(name(before[i]) != name(before[j]));
            }
        }
        assert forall|n: Seq<char>| #[trigger] m.contains_key(n) implies exists|i: int|
            0 <= i < list.len() && name(#[trigger] list[i]) == n by {
            if n == k {
                assert(name(list[before.len() as int]) == n);
            } else {
                assert(rest.contains_key(n));
                let i = choose|i: int| 0 <= i < before.len() && name(#[trigger] before[i]) == n;
                assert(name(list[i]) == n);
            }
        }
        list
    }
}

} // verus!
