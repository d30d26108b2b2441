//! The order of texts, and a stable sort by rank.
use vstd::prelude::*;

use crate::text::chars_of;

verus! {

/// Whether `a` comes before `b` in the order of code points, character by character; a text comes
/// before its own extensions.
pub open spec fn text_less(a: Seq<char>, b: Seq<char>) -> bool
    decreases a.len(),
{
    if b.len() == 0 {
        false
    } else if a.len() == 0 {
        true
    } else if a[0] != b[0] {
        a[0] < b[0]
    } else {
        text_less(a.drop_first(), b.drop_first())
    }
}

/// Whether the first string comes before the second.
pub fn text_before(a: &str, b: &str) -> (r: bool)
    ensures
        r == text_less(a@, b@),
{
    let x = chars_of(a);
    let y = chars_of(b);
    let mut i: usize = 0;
    proof {
        assert(a@.skip(0) == a@ && b@.skip(0) == b@);
    }
    while i < x.len() && i < y.len()
        invariant
            x@ == a@,
            y@ == b@,
            i <= x@.len(),
            i <= y@.len(),
            text_less(a@, b@) == text_less(a@.skip(i as int), b@.skip(i as int)),
        decreases x@.len() - i,
    {
        if x[i] != y[i] {
            return x[i] < y[i];
        }
        proof {
            assert(a@.skip(i as int).drop_first() == a@.skip(i + 1));
            assert(b@.skip(i as int).drop_first() == b@.skip(i + 1));
        }
        i += 1;
    }
    i < y.len()
}

/// Of two different texts exactly one comes before the other, and none before itself.
pub proof fn text_order_is_total(a: Seq<char>, b: Seq<char>)
    ensures
        !text_less(a, a),
        a != b ==> text_less(a, b) != text_less(b, a),
    decreases a.len(),
{
    if a.len() > 0 {
        text_order_is_total(a.drop_first(), a.drop_first());
        if b.len() > 0 {
            text_order_is_total(a.drop_first(), b.drop_first());
            if a[0] == b[0] && a.drop_first() == b.drop_first() {
                assert(a == seq![a[0]] + a.drop_first());
                assert(b == seq![b[0]] + b.drop_first());
            }
        }
    } else if b.len() == 0 {
        assert(a == b);
    }
}

/// A text that comes before another comes before all that the other comes before.
pub proof fn text_order_is_transitive(a: Seq<char>, b: Seq<char>, c: Seq<char>)
    requires
        text_less(a, b),
        text_less(b, c),
    ensures
        text_less(a, c),
    decreases a.len(),
{
    if a.len() > 0 && a[0] == b[0] && b[0] == c[0] {
        text_order_is_transitive(a.drop_first(), b.drop_first(), c.drop_first());
    }
}

/// What a list is sorted by. Entries at the front come first, later ones before earlier ones, and
/// then the names and the identifiers decide in the order of texts.
pub struct SortKey {
    pub front: bool,
    pub time: int,
    pub name: Seq<char>,
    pub id: Seq<char>,
}

/// Whether an entry with key `a` belongs before one with key `b`.
pub open spec fn ahead(a: SortKey, b: SortKey) -> bool {
    if a.front != b.front {
        a.front
    } else if a.time != b.time {
        a.time > b.time
    } else if a.name != b.name {
        text_less(a.name, b.name)
    } else {
        text_less(a.id, b.id)
    }
}

pub proof fn lemma_ahead_total(a: SortKey, b: SortKey)
    ensures
        !ahead(a, a),
        a != b ==> ahead(a, b) != ahead(b, a),
{
    text_order_is_total(a.name, b.name);
    text_order_is_total(a.id, b.id);
}

pub proof fn lemma_ahead_transitive(a: SortKey, b: SortKey, c: SortKey)
    requires
        ahead(a, b),
        ahead(b, c),
    ensures
        ahead(a, c),
{
    text_order_is_total(a.name, b.name);
    text_order_is_total(b.name, c.name);
    text_order_is_total(a.name, c.name);
    if text_less(a.name, b.name) && text_less(b.name, c.name) {
        text_order_is_transitive(a.name, b.name, c.name);
    }
    if text_less(a.id, b.id) && text_less(b.id, c.id) {
        text_order_is_transitive(a.id, b.id, c.id);
    }
}

/// `s` with `x` put in front of the entries at its end that `x` is ahead of.
pub open spec fn insert_ranked<M>(s: Seq<M>, x: M, key: spec_fn(M) -> SortKey) -> Seq<M>
    decreases s.len(),
{
    if s.len() > 0 && ahead(key(x), key(s.last())) {
        insert_ranked(s.drop_last(), x, key).push(s.last())
    } else {
        s.push(x)
    }
}

/// The entries of `s` sorted by their keys; entries with the same key keep their order.
pub open spec fn ranked<M>(s: Seq<M>, key: spec_fn(M) -> SortKey) -> Seq<M>
    decreases s.len(),
{
    if s.len() == 0 {
        s
    } else {
        insert_ranked(ranked(s.drop_last(), key), s.last(), key)
    }
}

/// Whether no entry stands behind one that it is ahead of.
pub open spec fn is_ranked<M>(s: Seq<M>, key: spec_fn(M) -> SortKey) -> bool {
    forall|i: int, j: int| 0 <= i < j < s.len() ==> !ahead(key(#[trigger] s[j]), key(#[trigger] s[i]))
}

/// The entries of `s` whose key is `k`, in order.
pub open spec fn with_key<M>(s: Seq<M>, key: spec_fn(M) -> SortKey, k: SortKey) -> Seq<M> {
    s.filter(|m: M| key(m) == k)
}

proof fn lemma_insert_ranked<M>(s: Seq<M>, x: M, key: spec_fn(M) -> SortKey)
    ensures
        insert_ranked(s, x, key).to_multiset() == s.to_multiset().insert(x),
        insert_ranked(s, x, key).len() == s.len() + 1,
        forall|k: SortKey| #[trigger]
            with_key(insert_ranked(s, x, key), key, k) == if key(x) == k {
                with_key(s, key, k).push(x)
            } else {
                with_key(s, key, k)
            },
    decreases s.len(),
{
    broadcast use vstd::seq_lib::group_to_multiset_ensures;

    reveal(Seq::filter);
    let r = insert_ranked(s, x, key);
    if s.len() > 0 && ahead(key(x), key(s.last())) {
        let before = s.drop_last();
        let inner = insert_ranked(before, x, key);
        lemma_insert_ranked(before, x, key);
        lemma_ahead_total(key(x), key(s.last()));
        assert(s == before.push(s.last()));
        assert(r.to_multiset() =~= s.to_multiset().insert(x));
        assert(r.drop_last() == inner);
        assert forall|k: SortKey|
            #[trigger] with_key(r, key, k) == if key(x) == k {
                with_key(s, key, k).push(x)
            } else {
                with_key(s, key, k)
            } by {
            assert(with_key(inner, key, k) == if key(x) == k {
                with_key(before, key, k).push(x)
            } else {
                with_key(before, key, k)
            });
        }
    } else {
        assert(r.drop_last() == s);
    }
}

proof fn lemma_insert_keeps_ranked<M>(s: Seq<M>, x: M, key: spec_fn(M) -> SortKey)
    requires
        is_ranked(s, key),
    ensures
        is_ranked(insert_ranked(s, x, key), key),
        forall|i: int|
            0 <= i < insert_ranked(s, x, key).len() ==> (#[trigger] insert_ranked(s, x, key)[i] == x
                || s.contains(insert_ranked(s, x, key)[i])),
    decreases s.len(),
{
    let r = insert_ranked(s, x, key);
    lemma_insert_ranked(s, x, key);
    if s.len() > 0 && ahead(key(x), key(s.last())) {
        let before = s.drop_last();
        let inner = insert_ranked(before, x, key);
        assert(is_ranked(before, key));
        lemma_insert_ranked(before, x, key);
        lemma_insert_keeps_ranked(before, x, key);
        assert forall|i: int| 0 <= i < r.len() implies (#[trigger] r[i] == x || s.contains(r[i])) by {
            if i < inner.len() {
                assert(r[i] == inner[i]);
                if inner[i] != x {
                    let j = choose|j: int| 0 <= j < before.len() && before[j] == inner[i];
                    assert(s[j] == r[i]);
                }
            } else {
                assert(r[i] == s[s.len() - 1]);
            }
        }
        assert forall|i: int, j: int| 0 <= i < j < r.len() implies !ahead(
            key(#[trigger] r[j]),
            key(#[trigger] r[i]),
        ) by {
            if j < inner.len() {
                assert(r[i] == inner[i] && r[j] == inner[j]);
            } else {
                assert(r[i] == inner[i] && r[j] == s.last());
                if inner[i] == x {
                    lemma_ahead_total(key(x), key(s.last()));
                } else {
                    let n = choose|n: int| 0 <= n < before.len() && before[n] == inner[i];
                    assert(s[n] == r[i] && s[s.len() - 1] == r[j]);
                }
            }
        }
    } else {
        assert forall|i: int| 0 <= i < r.len() implies (#[trigger] r[i] == x || s.contains(r[i])) by {
            if i < s.len() {
                assert(r[i] == s[i]);
            }
        }
        assert forall|i: int, j: int| 0 <= i < j < r.len() implies !ahead(
            key(#[trigger] r[j]),
            key(#[trigger] r[i]),
        ) by {
            if j < s.len() {
                assert(r[i] == s[i] && r[j] == s[j]);
            } else {
                assert(r[i] == s[i] && r[j] == x);
                if ahead(key(x), key(s[i])) {
                    lemma_ahead_total(key(s[i]), key(s.last()));
                    if i < s.len() - 1 {
                        assert(!ahead(key(s[s.len() - 1]), key(s[i])));
                        if key(s[i]) != key(s.last()) {
                            lemma_ahead_transitive(key(x), key(s[i]), key(s.last()));
                        }
                    }
                }
            }
        }
    }
}

/// A sorted list holds the same entries, none of them behind one that it is ahead of, and the
/// entries that share a key stand in the order in which they came.
pub proof fn ranked_is_a_stable_sort<M>(s: Seq<M>, key: spec_fn(M) -> SortKey)
    ensures
        ranked(s, key).to_multiset() == s.to_multiset(),
        ranked(s, key).len() == s.len(),
        is_ranked(ranked(s, key), key),
        forall|k: SortKey| #[trigger]
            with_key(ranked(s, key), key, k) == with_key(s, key, k),
    decreases s.len(),
{
    broadcast use vstd::seq_lib::group_to_multiset_ensures;

    if s.len() > 0 {
        let before = s.drop_last();
        ranked_is_a_stable_sort(before, key);
        lemma_insert_ranked(ranked(before, key), s.last(), key);
        lemma_insert_keeps_ranked(ranked(before, key), s.last(), key);
        assert(s == before.push(s.last()));
        assert forall|k: SortKey|
            #[trigger] with_key(ranked(s, key), key, k) == with_key(s, key, k) by {
            reveal(Seq::filter);
            assert(with_key(ranked(before, key), key, k) == with_key(before, key, k));
            assert(s.drop_last() == before);
        }
    }
}

/// Sorting changes nothing in a list that is sorted already.
pub proof fn sorting_keeps_sorted_lists<M>(s: Seq<M>, key: spec_fn(M) -> SortKey)
    requires
        is_ranked(s, key),
    ensures
        ranked(s, key) == s,
    decreases s.len(),
{
    if s.len() > 0 {
        let before = s.drop_last();
        assert(is_ranked(before, key)) by {
            assert forall|i: int, j: int| 0 <= i < j < before.len() implies !ahead(
                key(#[trigger] before[j]),
                key(#[trigger] before[i]),
            ) by {
                assert(before[i] == s[i] && before[j] == s[j]);
            }
        }
        sorting_keeps_sorted_lists(before, key);
        if before.len() > 0 {
            assert(!ahead(key(s[s.len() - 1]), key(s[s.len() - 2])));
        }
        assert(before.push(s.last()) =~= s);
    }
}

/// The order of a sorted list is settled by what it holds: two sorted lists with the same entries,
/// of which no two share a key, are the same list.
pub proof fn sorted_lists_are_settled<M>(a: Seq<M>, b: Seq<M>, key: spec_fn(M) -> SortKey)
    requires
        is_ranked(a, key),
        is_ranked(b, key),
        a.len() == b.len(),
        forall|i: int| 0 <= i < a.len() ==> b.contains(#[trigger] a[i]),
        forall|i: int, j: int|
            0 <= i < j < a.len() ==> key(#[trigger] a[i]) != key(#[trigger] a[j]),
        forall|i: int, j: int|
            0 <= i < j < b.len() ==> key(#[trigger] b[i]) != key(#[trigger] b[j]),
    ensures
        a == b,
    decreases a.len(),
{
    if a.len() > 0 {
        let n = a.len() - 1;
        let x = a[n];
        let y = b[n];
        let before_a = a.drop_last();
        let before_b = b.drop_last();
        let i = choose|i: int| 0 <= i < b.len() && b[i] == x;
        if i < n {
            // `x` stands before `y` in `b`, and every other place of `a` is taken from `b` too, so
            // that `y` stands before `x` in `a`.
            assert(!ahead(key(b[n]), key(b[i])));
            lemma_found_back(a, b, key, n);
            let j = choose|j: int| 0 <= j < a.len() && a[j] == y;
            assert(j < n) by {
                if j == n {
                    assert(key(b[i]) != key(b[n]));
                }
            }
            assert(!ahead(key(a[n]), key(a[j])));
            lemma_ahead_total(key(x), key(y));
            assert(key(b[i]) != key(b[n]));
        }
        assert(x == y);
        assert forall|k: int| 0 <= k < before_a.len() implies before_b.contains(
            #[trigger] before_a[k],
        ) by {
            assert(b.contains(a[k]));
            let m = choose|m: int| 0 <= m < b.len() && b[m] == a[k];
            if m == n {
                assert(key(a[k]) != key(a[n]));
            }
            assert(before_b[m] == before_a[k]);
        }
        sorted_lists_are_settled(before_a, before_b, key);
        assert(a =~= before_a.push(x));
        assert(b =~= before_b.push(y));
    }
}

/// Where all entries of `a` are in `b`, no more of them and all different, all of `b` are in `a`.
proof fn lemma_found_back<M>(a: Seq<M>, b: Seq<M>, key: spec_fn(M) -> SortKey, n: int)
    requires
        a.len() == b.len(),
        0 <= n < b.len(),
        forall|i: int| 0 <= i < a.len() ==> b.contains(#[trigger] a[i]),
        forall|i: int, j: int|
            0 <= i < j < a.len() ==> key(#[trigger] a[i]) != key(#[trigger] a[j]),
    ensures
        a.contains(b[n]),
{
    assert(a.no_duplicates()) by {
        assert forall|i: int, j: int| 0 <= i < a.len() && 0 <= j < a.len() && i != j implies a[i]
            != a[j] by {
            if i < j {
                assert(key(a[i]) != key(a[j]));
            } else {
                assert(key(a[j]) != key(a[i]));
            }
        }
    }
    a.unique_seq_to_set();
    b.lemma_cardinality_of_set();
    let sa = a.to_set();
    let sb = b.to_set();
    assert(sa.subset_of(sb)) by {
        assert forall|m: M| sa.contains(m) implies sb.contains(m) by {
            let i = choose|i: int| 0 <= i < a.len() && a[i] == m;
            assert(b.contains(a[i]));
        }
    }
    vstd::set_lib::lemma_len_subset(sa, sb);
    vstd::set_lib::lemma_subset_equality(sa, sb);
    assert(sb.contains(b[n]));
}

/// Something that a list is sorted by.
pub trait Ranked: DeepView + Sized {
    /// The key of an entry.
    spec fn rank(m: Self::V) -> SortKey;

    /// Whether this entry belongs before the other.
    fn is_ahead(&self, other: &Self) -> (r: bool)
        ensures
            r == ahead(Self::rank(self.deep_view()), Self::rank(other.deep_view())),
    ;
}

/// Puts `x` in front of the entries at the end of the list that it is ahead of.
fn put_ranked<T: Ranked>(list: &mut Vec<T>, x: T)
    ensures
        final(list).deep_view() == insert_ranked(
            old(list).deep_view(),
            x.deep_view(),
            |m: T::V| T::rank(m),
        ),
{
    let ghost key = |m: T::V| T::rank(m);
    let ghost all = list.deep_view();
    let ghost m = x.deep_view();
    let mut at: usize = list.len();
    proof {
        assert(all.take(at as int) == all && all.skip(at as int).len() == 0);
        assert(insert_ranked(all, m, key) == insert_ranked(all.take(at as int), m, key)
            + all.skip(at as int));
    }
    while at > 0 && x.is_ahead(&list[at - 1])
        invariant
            at <= list@.len(),
            all == list.deep_view(),
            m == x.deep_view(),
            key == (|m: T::V| T::rank(m)),
            insert_ranked(all, m, key) == insert_ranked(all.take(at as int), m, key) + all.skip(
                at as int,
            ),
        decreases at,
    {
        proof {
            let s = all.take(at as int);
            assert(s.last() == list@[at - 1].deep_view());
            assert(s.drop_last() == all.take(at - 1));
            assert(insert_ranked(s, m, key) == insert_ranked(s.drop_last(), m, key).push(s.last()));
            assert(insert_ranked(s, m, key) + all.skip(at as int) == insert_ranked(
                all.take(at - 1),
                m,
                key,
            ) + all.skip(at - 1));
        }
        at -= 1;
    }
    proof {
        let s = all.take(at as int);
        if at > 0 {
            assert(s.last() == list@[at - 1].deep_view());
        }
        assert(insert_ranked(s, m, key) == s.push(m));
    }
    list.insert(at, x);
    proof {
        assert(list.deep_view() == all.take(at as int).push(m) + all.skip(at as int));
    }
}

/// The entries sorted by their keys; entries with the same key keep their order.
pub fn sort_ranked<T: Ranked>(list: Vec<T>) -> (r: Vec<T>)
    ensures
        r.deep_view() == ranked(list.deep_view(), |m: T::V| T::rank(m)),
{
    let ghost all = list.deep_view();
    let mut out: Vec<T> = Vec::new();
    proof {
        assert(all.take(0).len() == 0);
        assert(out.deep_view() == all.take(0));
    }
    for x in it: list
        invariant
            it.seq() == list@,
            all == list.deep_view(),
            out.deep_view() == ranked(all.take(it.index() as int), |m: T::V| T::rank(m)),
    {
        proof {
            let n = it.index() as int;
            assert(all.take(n + 1).drop_last() == all.take(n));
            assert(all.take(n + 1).last() == x.deep_view());
        }
        put_ranked(&mut out, x);
    }
    proof {
        assert(all.take(all.len() as int) == all);
    }
    out
}

/// The first character in which two texts differ decides which of them comes first, by its code point;
/// where one text begins with the other, the shorter one comes first.
pub proof fn the_first_difference_decides(
    same: Seq<char>,
    a: char,
    b: char,
    x: Seq<char>,
    y: Seq<char>,
)
    ensures
        a != b ==> (text_less(same + seq![a] + x, same + seq![b] + y) <==> (a as u32) < (b as u32)),
        x.len() > 0 ==> text_less(same, same + x),
    decreases same.len(),
{
    let s = same + seq![a] + x;
    let t = same + seq![b] + y;
    if same.len() > 0 {
        let rest = same.drop_first();
        the_first_difference_decides(rest, a, b, x, y);
        assert(s.drop_first() =~= rest + seq![a] + x);
        assert(t.drop_first() =~= rest + seq![b] + y);
        assert((same + x).drop_first() =~= rest + x);
    } else {
        assert(s[0] == a && t[0] == b);
    }
}

} // verus!
