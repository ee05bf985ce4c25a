//! Statistics: values by name.
use crate::text;
use vstd::prelude::*;

verus! {

/// The values that `entries` give to the names in it. The last one of a name counts.
pub open spec fn entries_map(entries: Seq<(Seq<char>, Seq<char>)>) -> Map<Seq<char>, Seq<char>>
    decreases entries.len(),
{
    if entries.len() == 0 {
        Map::empty()
    } else {
        entries_map(entries.drop_last()).insert(entries.last().0, entries.last().1)
    }
}

/// Whether no name occurs twice in `entries`.
pub open spec fn names_distinct(entries: Seq<(Seq<char>, Seq<char>)>) -> bool {
    forall|i: int, j: int|
        0 <= i < j < entries.len() ==> #[trigger] entries[i].0 != #[trigger] entries[j].0
}

/// A name is in the map exactly if it occurs in the entries; where no name occurs twice, its
/// value is that of its entry.
proof fn lemma_entries_map(entries: Seq<(Seq<char>, Seq<char>)>)
    ensures
        forall|k: Seq<char>|
            entries_map(entries).contains_key(k) <==> exists|i: int|
                0 <= i < entries.len() && #[trigger] entries[i].0 == k,
        names_distinct(entries) ==> forall|i: int|
            0 <= i < entries.len() ==> entries_map(entries)[#[trigger] entries[i].0]
                == entries[i].1,
    decreases entries.len(),
{
    if entries.len() > 0 {
        let front = entries.drop_last();
        lemma_entries_map(front);
        assert forall|k: Seq<char>|
            entries_map(entries).contains_key(k) <==> exists|i: int|
                0 <= i < entries.len() && #[trigger] entries[i].0 == k by {
            if entries_map(front).contains_key(k) {
                let i = choose|i: int| 0 <= i < front.len() && #[trigger] front[i].0 == k;
                assert(entries[i].0 == k);
            }
            if exists|i: int| 0 <= i < entries.len() && #[trigger] entries[i].0 == k {
                let i = choose|i: int| 0 <= i < entries.len() && #[trigger] entries[i].0 == k;
                if i < front.len() {
                    assert(front[i].0 == k);
                } else {
                    assert(entries.last().0 == k);
                }
            }
            if entries.last().0 == k {
                assert(entries[entries.len() - 1].0 == k);
            }
        }
        if names_distinct(entries) {
            assert(names_distinct(front)) by {
                assert forall|i: int, j: int| 0 <= i < j < front.len() implies #[trigger] front[i].0
                    != #[trigger] front[j].0 by {
                    assert(entries[i].0 != entries[j].0);
                }
            }
            assert forall|i: int| 0 <= i < entries.len() implies entries_map(
                entries,
            )[#[trigger] entries[i].0] == entries[i].1 by {
                if i < front.len() {
                    assert(front[i] == entries[i]);
                    assert(entries[i].0 != entries[entries.len() - 1].0);
                }
            }
        }
    }
}

/// Where no name occurs twice there are as many names as entries.
proof fn lemma_entries_map_len(entries: Seq<(Seq<char>, Seq<char>)>)
    requires
        names_distinct(entries),
    ensures
        entries_map(entries).dom().finite(),
        entries_map(entries).len() == entries.len(),
    decreases entries.len(),
{
    if entries.len() > 0 {
        let front = entries.drop_last();
        assert(names_distinct(front)) by {
            assert forall|i: int, j: int| 0 <= i < j < front.len() implies #[trigger] front[i].0
                != #[trigger] front[j].0 by {
                assert(entries[i].0 != entries[j].0);
            }
        }
        lemma_entries_map_len(front);
        lemma_entries_map(front);
        assert(!entries_map(front).contains_key(entries.last().0)) by {
            assert forall|i: int| 0 <= i < front.len() implies #[trigger] front[i].0
                != entries.last().0 by {
                assert(entries[i].0 != entries[entries.len() - 1].0);
            }
        }
    }
}

/// Statistics of the server, a tube or a job: a map from names to values.
#[derive(Debug)]
pub struct Stats {
    entries: Vec<(String, String)>,
}

impl View for Stats {
    type V = Map<Seq<char>, Seq<char>>;

    closed spec fn view(&self) -> Map<Seq<char>, Seq<char>> {
        entries_map(self.entries.deep_view())
    }
}

impl DeepView for Stats {
    type V = Map<Seq<char>, Seq<char>>;

    open spec fn deep_view(&self) -> Map<Seq<char>, Seq<char>> {
        self@
    }
}

impl Stats {
    #[verifier::type_invariant]
    spec fn well_formed(&self) -> bool {
        names_distinct(self.entries.deep_view())
    }

    /// Statistics without an entry.
    pub fn new() -> (r: Stats)
        ensures
            r@ == Map::<Seq<char>, Seq<char>>::empty(),
    {
        Stats { entries: Vec::new() }
    }

    /// These statistics with the value of `name` set.
    pub fn with(self, name: &str, value: &str) -> (r: Stats)
        ensures
            r@ == self@.insert(name@, value@),
    {
        proof {
            use_type_invariant(&self);
        }
        let mut entries = self.entries;
        let ghost before = entries.deep_view();
        let entry = (name.to_owned(), value.to_owned());
        match position(&entries, name) {
            Some(i) => {
                entries.set(i, entry);
                proof {
                    let after = entries.deep_view();
                    assert(after == before.update(i as int, (name@, value@)));
                    assert forall|j: int, k: int| 0 <= j < k < after.len() implies
                        #[trigger] after[j].0 != #[trigger] after[k].0 by {
                        assert(before[j].0 != before[k].0);
                    }
                    lemma_entries_map(before);
                    lemma_entries_map(after);
                    assert(before[i as int].0 == name@);
                    let m = entries_map(before).insert(name@, value@);
                    assert forall|k: Seq<char>| entries_map(after).contains_key(
                        k,
                    ) == m.contains_key(k) by {
                        if m.contains_key(k) {
                            if k == name@ {
                                assert(after[i as int].0 == k);
                            } else {
                                let j = choose|j: int|
                                    0 <= j < before.len() && #[trigger] before[j].0 == k;
                                assert(after[j].0 == k);
                            }
                        }
                        if entries_map(after).contains_key(k) {
                            let j = choose|j: int|
                                0 <= j < after.len() && #[trigger] after[j].0 == k;
                            assert(before[j].0 == k || k == name@);
                        }
                    }
                    assert forall|k: Seq<char>| entries_map(after).contains_key(
                        k,
                    ) implies entries_map(after)[k] == m[k] by {
                        let j = choose|j: int| 0 <= j < after.len() && #[trigger] after[j].0 == k;
                        assert(entries_map(after)[after[j].0] == after[j].1);
                        if j != i {
                            assert(entries_map(before)[before[j].0] == before[j].1);
                            assert(before[j].0 != before[i as int].0);
                        }
                    }
                    assert(entries_map(after) =~= m);
                }
            },
            None => {
                entries.push(entry);
                proof {
                    let after = entries.deep_view();
                    assert(after == before.push((name@, value@)));
                    assert(after.drop_last() == before);
                    assert forall|j: int, k: int| 0 <= j < k < after.len() implies
                        #[trigger] after[j].0 != #[trigger] after[k].0 by {
                        assert(before[j].0 != name@);
                        if k < before.len() {
                            assert(before[j].0 != before[k].0);
                        }
                    }
                }
            },
        }
        Stats { entries }
    }

    /// The value of `name`.
    pub fn get(&self, name: &str) -> (r: Option<&String>)
        ensures
            r.deep_view() == (if self@.contains_key(name@) {
                Some(self@[name@])
            } else {
                None
            }),
    {
        proof {
            use_type_invariant(self);
            lemma_entries_map(self.entries.deep_view());
        }
        match position(&self.entries, name) {
            Some(i) => {
                proof {
                    assert(self.entries.deep_view()[i as int].0 == name@);
                }
                Some(&self.entries[i].1)
            },
            None => None,
        }
    }

    /// How many names have a value.
    pub fn len(&self) -> (n: usize)
        ensures
            self@.dom().finite(),
            n == self@.len(),
    {
        proof {
            use_type_invariant(self);
            lemma_entries_map_len(self.entries.deep_view());
        }
        self.entries.len()
    }

    /// The names with their values, no name twice.
    pub fn into_entries(self) -> (r: Vec<(String, String)>)
        ensures
            entries_map(r.deep_view()) == self@,
            names_distinct(r.deep_view()),
    {
        proof {
            use_type_invariant(&self);
        }
        self.entries
    }
}

/// The position of the entry for `name`.
fn position(entries: &Vec<(String, String)>, name: &str) -> (r: Option<usize>)
    ensures
        match r {
            Some(i) => i < entries@.len() && entries.deep_view()[i as int].0 == name@,
            None => forall|i: int|
                0 <= i < entries@.len() ==> #[trigger] entries.deep_view()[i].0 != name@,
        },
{
    let mut i: usize = 0;
    while i < entries.len()
        invariant
            i <= entries@.len(),
            forall|j: int| 0 <= j < i ==> #[trigger] entries.deep_view()[j].0 != name@,
        decreases entries@.len() - i,
    {
        if text::same(entries[i].0.as_str(), name) {
            return Some(i);
        }
        i = i + 1;
    }
    None
}

} // verus!
