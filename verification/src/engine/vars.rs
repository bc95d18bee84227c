//! Template variables: a map from names to values, used by `{{name}}`
//! placeholders and `^IFC` conditions.

use vstd::prelude::*;

verus! {

/// A set of template variables, each name bound to one value.
#[derive(Debug, Clone)]
pub struct Variables {
    entries: Vec<(String, String)>,
}

/// The entries hold each name once.
pub open spec fn distinct_names(e: Seq<(String, String)>) -> bool {
    forall|i: int, j: int| 0 <= i < j < e.len() ==> #[trigger] e[i].0@ != #[trigger] e[j].0@
}

impl Variables {
    pub closed spec fn wf(&self) -> bool {
        distinct_names(self.entries@)
    }

    /// The variables as a map from names to values.
    pub closed spec fn map(&self) -> Map<Seq<char>, Seq<char>> {
        Map::new(
            |k: Seq<char>| exists|i: int| 0 <= i < self.entries@.len() && #[trigger] self.entries@[i].0@ == k,
            |k: Seq<char>|
                self.entries@[choose|i: int|
                    0 <= i < self.entries@.len() && #[trigger] self.entries@[i].0@ == k].1@,
        )
    }

    /// No variables.
    pub fn new() -> (v: Self)
        ensures
            v.wf(),
            v.map() == Map::<Seq<char>, Seq<char>>::empty(),
    {
        let v = Variables { entries: Vec::new() };
        proof {
            assert(v.map() =~= Map::<Seq<char>, Seq<char>>::empty());
        }
        v
    }

    /// Index of the entry named `key`.
    fn position(&self, key: &str) -> (r: Option<usize>)
        requires
            self.wf(),
        ensures
            match r {
                Some(i) => i < self.entries@.len() && self.entries@[i as int].0@ == key@,
                None => forall|i: int| 0 <= i < self.entries@.len() ==> #[trigger] self.entries@[i].0@ != key@,
            },
    {
        let mut i: usize = 0;
        while i < self.entries.len()
            invariant
                i <= self.entries@.len(),
                forall|j: int| 0 <= j < i ==> #[trigger] self.entries@[j].0@ != key@,
            decreases self.entries@.len() - i,
        {
            if crate::text::str_eq(self.entries[i].0.as_str(), key) {
                return Some(i);
            }
            i = i + 1;
        }
        None
    }

    /// The value of variable `key`.
    pub fn get(&self, key: &str) -> (r: Option<&String>)
        requires
            self.wf(),
        ensures
            match r {
                Some(v) => self.map().contains_key(key@) && v@ == self.map()[key@],
                None => !self.map().contains_key(key@),
            },
    {
        match self.position(key) {
            Some(i) => {
                proof {
                    let j = choose|j: int|
                        0 <= j < self.entries@.len() && #[trigger] self.entries@[j].0@ == key@;
                    assert(self.entries@[i as int].0@ == key@);
                    if j != i {
                        if j < i {
                            assert(self.entries@[j].0@ != self.entries@[i as int].0@);
                        } else {
                            assert(self.entries@[i as int].0@ != self.entries@[j].0@);
                        }
                    }
                }
                Some(&self.entries[i].1)
            },
            None => None,
        }
    }

    /// Binds `key` to `value`, replacing an earlier binding.
    pub fn insert(&mut self, key: String, value: String)
        requires
            old(self).wf(),
        ensures
            final(self).wf(),
            final(self).map() == old(self).map().insert(key@, value@),
    {
        let ghost k = key@;
        let ghost v = value@;
        let ghost old_map = self.map();
        match self.position(key.as_str()) {
            Some(i) => {
                let ghost before = self.entries@;
                self.entries.set(i, (key, value));
                proof {
                    assert forall|a: int, b: int|
                        0 <= a < b < self.entries@.len() implies #[trigger] self.entries@[a].0@
                        != #[trigger] self.entries@[b].0@ by {
                        assert(before[a].0@ != before[b].0@);
                    }
                    assert forall|q: Seq<char>| #[trigger] self.map().contains_key(q)
                        == old_map.insert(k, v).contains_key(q) by {
                        if q == k {
                            assert(self.entries@[i as int].0@ == q);
                        } else if old_map.contains_key(q) {
                            let j = choose|j: int|
                                0 <= j < before.len() && #[trigger] before[j].0@ == q;
                            assert(self.entries@[j].0@ == q);
                        } else if self.map().contains_key(q) {
                            let j = choose|j: int|
                                0 <= j < self.entries@.len() && #[trigger] self.entries@[j].0@ == q;
                            assert(before[j].0@ == q);
                        }
                    }
                    assert forall|q: Seq<char>| #[trigger] self.map().contains_key(q) implies self.map()[q]
                        == old_map.insert(k, v)[q] by {
                        let j = choose|j: int|
                            0 <= j < self.entries@.len() && #[trigger] self.entries@[j].0@ == q;
                        if q == k {
                            if j != i {
                                if j < i {
                                    assert(self.entries@[j].0@ != self.entries@[i as int].0@);
                                } else {
                                    assert(self.entries@[i as int].0@ != self.entries@[j].0@);
                                }
                            }
                        } else {
                            assert(before[j].0@ == q);
                            let j2 = choose|j2: int| 0 <= j2 < before.len() && #[trigger] before[j2].0@ == q;
                            if j2 != j {
                                if j2 < j {
                                    assert(before[j2].0@ != before[j].0@);
                                } else {
                                    assert(before[j].0@ != before[j2].0@);
                                }
                            }
                        }
                    }
                    assert(self.map() =~= old_map.insert(k, v));
                }
            },
            None => {
                let ghost before = self.entries@;
                self.entries.push((key, value));
                proof {
                    assert forall|a: int, b: int|
                        0 <= a < b < self.entries@.len() implies #[trigger] self.entries@[a].0@
                        != #[trigger] self.entries@[b].0@ by {
                        if b < before.len() {
                            assert(before[a].0@ != before[b].0@);
                        }
                    }
                    let n = before.len() as int;
                    assert forall|q: Seq<char>| #[trigger] self.map().contains_key(q)
                        == old_map.insert(k, v).contains_key(q) by {
                        if q == k {
                            assert(self.entries@[n].0@ == q);
                        } else if old_map.contains_key(q) {
                            let j = choose|j: int|
                                0 <= j < before.len() && #[trigger] before[j].0@ == q;
                            assert(self.entries@[j].0@ == q);
                        } else if self.map().contains_key(q) {
                            let j = choose|j: int|
                                0 <= j < self.entries@.len() && #[trigger] self.entries@[j].0@ == q;
                            assert(before[j].0@ == q);
                        }
                    }
                    assert forall|q: Seq<char>| #[trigger] self.map().contains_key(q) implies self.map()[q]
                        == old_map.insert(k, v)[q] by {
                        let j = choose|j: int|
                            0 <= j < self.entries@.len() && #[trigger] self.entries@[j].0@ == q;
                        if q == k {
                            assert(j == n);
                        } else {
                            assert(before[j].0@ == q);
                            let j2 = choose|j2: int| 0 <= j2 < before.len() && #[trigger] before[j2].0@ == q;
                            if j2 != j {
                                if j2 < j {
                                    assert(before[j2].0@ != before[j].0@);
                                } else {
                                    assert(before[j].0@ != before[j2].0@);
                                }
                            }
                        }
                    }
                    assert(self.map() =~= old_map.insert(k, v));
                }
            },
        }
    }
}

} // verus!
