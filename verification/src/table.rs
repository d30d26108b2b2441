//! A table of values, one for each name.
use vstd::prelude::*;

use crate::text::same_text;

verus! {

/// Values by name. The rows keep the order in which their names first came.
pub struct Table<T> {
    pub rows: Vec<(String, T)>,
}

/// What a list of rows says of each name.
pub open spec fn rows_map<M>(rows: Seq<(Seq<char>, M)>) -> Map<Seq<char>, M>
    decreases rows.len(),
{
    if rows.len() == 0 {
        Map::empty()
    } else {
        rows_map(rows.drop_last()).insert(rows.last().0, rows.last().1)
    }
}

/// Whether no name has two rows.
pub open spec fn names_differ<M>(rows: Seq<(Seq<char>, M)>) -> bool {
    forall|i: int, j: int|
        0 <= i < j < rows.len() ==> (#[trigger] rows[i]).0 != (#[trigger] rows[j]).0
}

/// The value of a name, where it has one.
pub open spec fn lookup<M>(m: Map<Seq<char>, M>, name: Seq<char>) -> Option<M> {
    if m.contains_key(name) {
        Some(m[name])
    } else {
        None
    }
}

impl<T: DeepView> View for Table<T> {
    type V = Map<Seq<char>, T::V>;

    open spec fn view(&self) -> Map<Seq<char>, T::V> {
        rows_map(self.rows.deep_view())
    }
}

pub proof fn lemma_row<M>(rows: Seq<(Seq<char>, M)>, i: int)
    requires
        names_differ(rows),
        0 <= i < rows.len(),
    ensures
        rows_map(rows).contains_key(rows[i].0),
        rows_map(rows)[rows[i].0] == rows[i].1,
    decreases rows.len(),
{
    if i < rows.len() - 1 {
        let before = rows.drop_last();
        assert forall|a: int, b: int| 0 <= a < b < before.len() implies (#[trigger] before[a]).0 != (
        #[trigger] before[b]).0 by {
            assert(before[a] == rows[a] && before[b] == rows[b]);
        }
        lemma_row(before, i);
        assert(rows[i].0 != rows[rows.len() - 1].0);
    }
}

pub proof fn lemma_name<M>(rows: Seq<(Seq<char>, M)>, name: Seq<char>) -> (i: int)
    requires
        rows_map(rows).contains_key(name),
    ensures
        0 <= i < rows.len(),
        rows[i].0 == name,
    decreases rows.len(),
{
    if rows.len() == 0 {
        0
    } else if rows.last().0 == name {
        rows.len() - 1
    } else {
        lemma_name(rows.drop_last(), name)
    }
}

proof fn lemma_row_replaced<M>(rows: Seq<(Seq<char>, M)>, i: int, m: M)
    requires
        names_differ(rows),
        0 <= i < rows.len(),
    ensures
        rows_map(rows.update(i, (rows[i].0, m))) == rows_map(rows).insert(rows[i].0, m),
        names_differ(rows.update(i, (rows[i].0, m))),
    decreases rows.len(),
{
    let next = rows.update(i, (rows[i].0, m));
    let before = rows.drop_last();
    if i < rows.len() - 1 {
        assert forall|a: int, b: int| 0 <= a < b < before.len() implies (#[trigger] before[a]).0 != (
        #[trigger] before[b]).0 by {
            assert(before[a] == rows[a] && before[b] == rows[b]);
        }
        lemma_row_replaced(before, i, m);
        assert(next.drop_last() == before.update(i, (rows[i].0, m)));
        assert(rows[i].0 != rows[rows.len() - 1].0);
        assert(rows_map(next) =~= rows_map(rows).insert(rows[i].0, m));
    } else {
        assert(next.drop_last() == before);
        assert(rows_map(next) =~= rows_map(rows).insert(rows[i].0, m));
    }
    assert forall|a: int, b: int| 0 <= a < b < next.len() implies (#[trigger] next[a]).0 != (
    #[trigger] next[b]).0 by {
        assert(next[a].0 == rows[a].0 && next[b].0 == rows[b].0);
    }
}

impl<T: DeepView> Table<T> {
    /// Whether no name has two rows.
    pub open spec fn wf(&self) -> bool {
        names_differ(self.rows.deep_view())
    }

    /// A table without rows.
    pub fn new() -> (r: Table<T>)
        ensures
            r.wf(),
            r@ == Map::<Seq<char>, T::V>::empty(),
    {
        Table { rows: Vec::new() }
    }

    fn position(&self, name: &str) -> (r: Option<usize>)
        requires
            self.wf(),
        ensures
            match r {
                Some(i) => i < self.rows@.len() && self.rows@[i as int].0@ == name@,
                None => !self@.contains_key(name@),
            },
    {
        let mut i: usize = 0;
        while i < self.rows.len()
            invariant
                i <= self.rows@.len(),
                forall|k: int| 0 <= k < i ==> (#[trigger] self.rows@[k]).0@ != name@,
            decreases self.rows@.len() - i,
        {
            if same_text(self.rows[i].0.as_str(), name) {
                return Some(i);
            }
            i += 1;
        }
        proof {
            if self@.contains_key(name@) {
                let k = lemma_name(self.rows.deep_view(), name@);
                assert(self.rows@[k].0@ == name@);
            }
        }
        None
    }

    /// The value of a name.
    pub fn get(&self, name: &str) -> (r: Option<&T>)
        requires
            self.wf(),
        ensures
            r.deep_view() == lookup(self@, name@),
    {
        match self.position(name) {
            Some(i) => {
                proof {
                    lemma_row(self.rows.deep_view(), i as int);
                }
                Some(&self.rows[i].1)
            },
            None => None,
        }
    }

    /// The values, in the order in which their names first came.
    pub fn into_values(self) -> (r: Vec<T>)
        requires
            self.wf(),
        ensures
            r.deep_view() == self.rows.deep_view().map_values(|row: (Seq<char>, T::V)| row.1),
    {
        let ghost all = self.rows.deep_view();
        let mut values: Vec<T> = Vec::new();
        for row in it: self.rows
            invariant
                it.seq() == self.rows@,
                all == self.rows.deep_view(),
                values@.len() == it.index(),
                forall|i: int|
                    0 <= i < values@.len() ==> (#[trigger] values@[i]).deep_view() == all[i].1,
        {
            proof {
                assert(all[it.index() as int] == (row.0@, row.1.deep_view()));
            }
            values.push(row.1);
        }
        proof {
            assert(values.deep_view() =~= all.map_values(|row: (Seq<char>, T::V)| row.1));
        }
        values
    }

    /// Gives a name a value, whether or not it had one before.
    pub fn put(&mut self, name: String, value: T)
        requires
            old(self).wf(),
        ensures
            final(self).wf(),
            final(self)@ == old(self)@.insert(name@, value.deep_view()),
    {
        let ghost all = self.rows.deep_view();
        let ghost m = value.deep_view();
        let ghost n = name@;
        match self.position(name.as_str()) {
            Some(i) => {
                proof {
                    lemma_row_replaced(all, i as int, m);
                }
                self.rows.set(i, (name, value));
                proof {
                    assert(self.rows.deep_view() == all.update(i as int, (n, m)));
                }
            },
            None => {
                self.rows.push((name, value));
                proof {
                    let next = self.rows.deep_view();
                    assert(next.drop_last() == all);
                    assert(next.last() == (n, m));
                    assert forall|a: int, b: int| 0 <= a < b < next.len() implies (
                    #[trigger] next[a]).0 != (#[trigger] next[b]).0 by {
                        assert(next[a] == all[a]);
                        if b < all.len() {
                            assert(next[b] == all[b]);
                        } else {
                            lemma_row(all, a);
                        }
                    }
                }
            },
        }
    }
}

} // verus!
