//! A small table keyed by text, which keeps the order in which its keys first came.

use vstd::prelude::*;

use crate::text::same;

verus! {

/// Values by key; no key occurs twice.
#[derive(Debug, Clone)]
pub struct Table<V> {
    pub entries: Vec<(String, V)>,
}

/// What `entries` maps each key to.
pub open spec fn map_of<V>(entries: Seq<(String, V)>) -> Map<Seq<char>, V>
    decreases entries.len(),
{
    if entries.len() == 0 {
        Map::empty()
    } else {
        map_of(entries.drop_last()).insert(entries.last().0@, entries.last().1)
    }
}

/// Whether no key occurs twice.
pub open spec fn distinct<V>(entries: Seq<(String, V)>) -> bool {
    forall|i: int, j: int|
        0 <= i < j < entries.len() ==> (#[trigger] entries[i]).0@ != (#[trigger] entries[j]).0@
}

/// A key is in the map exactly if an entry has it, and that entry gives its value.
pub proof fn lemma_map_of<V>(entries: Seq<(String, V)>)
    requires
        distinct(entries),
    ensures
        forall|i: int|
            0 <= i < entries.len() ==> map_of(entries).contains_key((#[trigger] entries[i]).0@)
                && map_of(entries)[entries[i].0@] == entries[i].1,
        forall|k: Seq<char>| #[trigger]
            map_of(entries).contains_key(k) ==> exists|i: int|
                0 <= i < entries.len() && (#[trigger] entries[i]).0@ == k,
    decreases entries.len(),
{
    if entries.len() > 0 {
        let rest = entries.drop_last();
        assert forall|i: int, j: int| 0 <= i < j < rest.len() implies (#[trigger] rest[i]).0@ != (
        #[trigger] rest[j]).0@ by {
            assert(entries[i].0@ != entries[j].0@);
        }
        lemma_map_of(rest);
        let m = map_of(entries);
        assert forall|i: int| 0 <= i < entries.len() implies m.contains_key(
            (#[trigger] entries[i]).0@,
        ) && m[entries[i].0@] == entries[i].1 by {
            if i < rest.len() {
                assert(rest[i] == entries[i]);
                assert(entries[i].0@ != entries[entries.len() - 1].0@);
            }
        }
        assert forall|k: Seq<char>| #[trigger] m.contains_key(k) implies exists|i: int|
            0 <= i < entries.len() && (#[trigger] entries[i]).0@ == k by {
            if k == entries.last().0@ {
                assert(entries[entries.len() - 1].0@ == k);
            } else {
                assert(map_of(rest).contains_key(k));
                let i = choose|i: int| 0 <= i < rest.len() && (#[trigger] rest[i]).0@ == k;
                assert(entries[i].0@ == k);
            }
        }
    }
}

/// Changing the value of an entry changes what its key is mapped to, and nothing else.
pub proof fn lemma_set_value<V>(entries: Seq<(String, V)>, i: int)
    requires
        distinct(entries),
        0 <= i < entries.len(),
    ensures
        forall|v: V|
            #![trigger entries.update(i, (entries[i].0, v))]
            distinct(entries.update(i, (entries[i].0, v))) && map_of(
                entries.update(i, (entries[i].0, v)),
            ) == map_of(entries).insert(entries[i].0@, v),
{
    assert forall|v: V|
        #![trigger entries.update(i, (entries[i].0, v))]
        distinct(entries.update(i, (entries[i].0, v))) && map_of(
            entries.update(i, (entries[i].0, v)),
        ) == map_of(entries).insert(entries[i].0@, v) by {
        let now = entries.update(i, (entries[i].0, v));
        assert forall|a: int, b: int| 0 <= a < b < now.len() implies (#[trigger] now[a]).0@ != (
        #[trigger] now[b]).0@ by {
            assert(entries[a].0@ != entries[b].0@);
        }
        lemma_map_of(entries);
        lemma_map_of(now);
        let m = map_of(entries).insert(entries[i].0@, v);
        assert forall|k: Seq<char>| map_of(now).contains_key(k) == m.contains_key(k) by {
            if m.contains_key(k) && k != entries[i].0@ {
                let j = choose|j: int| 0 <= j < entries.len() && (#[trigger] entries[j]).0@ == k;
                assert(now[j].0@ == k);
            }
            if k == entries[i].0@ {
                assert(now[i].0@ == k);
            }
            if map_of(now).contains_key(k) {
                let j = choose|j: int| 0 <= j < now.len() && (#[trigger] now[j]).0@ == k;
                assert(entries[j].0@ == k);
            }
        }
        assert forall|k: Seq<char>| m.contains_key(k) implies map_of(now)[k] == m[k] by {
            assert(map_of(now).contains_key(k));
            let j = choose|j: int| 0 <= j < now.len() && (#[trigger] now[j]).0@ == k;
            assert(entries[j].0@ == k);
            if j != i {
                if j < i {
                    assert(entries[j].0@ != entries[i].0@);
                } else {
                    assert(entries[i].0@ != entries[j].0@);
                }
            }
        }
        assert(map_of(now) =~= m);
    }
}

impl<V> View for Table<V> {
    type V = Map<Seq<char>, V>;

    open spec fn view(&self) -> Map<Seq<char>, V> {
        map_of(self.entries@)
    }
}

impl<V> Table<V> {
    pub open spec fn wf(&self) -> bool {
        distinct(self.entries@)
    }

    pub fn new() -> (r: Self)
        ensures
            r.wf(),
            r@ == Map::<Seq<char>, V>::empty(),
            r.entries@.len() == 0,
    {
        Table { entries: Vec::new() }
    }

    /// Where `key` stands.
    pub fn position(&self, key: &str) -> (r: Option<usize>)
        requires
            self.wf(),
        ensures
            match r {
                Some(i) => i < self.entries@.len() && self.entries@[i as int].0@ == key@
                    && self@.contains_key(key@) && self@[key@] == self.entries@[i as int].1,
                None => !self@.contains_key(key@),
            },
    {
        proof {
            lemma_map_of(self.entries@);
        }
        let mut i: usize = 0;
        while i < self.entries.len()
            invariant
                i <= self.entries@.len(),
                forall|j: int| 0 <= j < i ==> (#[trigger] self.entries@[j]).0@ != key@,
                forall|j: int|
                    0 <= j < self.entries@.len() ==> self@.contains_key(
                        (#[trigger] self.entries@[j]).0@,
                    ) && self@[self.entries@[j].0@] == self.entries@[j].1,
            decreases self.entries@.len() - i,
        {
            if same(self.entries[i].0.as_str(), key) {
                return Some(i);
            }
            i += 1;
        }
        None
    }

    pub fn get(&self, key: &str) -> (r: Option<&V>)
        requires
            self.wf(),
        ensures
            match r {
                Some(v) => self@.contains_key(key@) && self@[key@] == *v,
                None => !self@.contains_key(key@),
            },
    {
        match self.position(key) {
            Some(i) => Some(&self.entries[i].1),
            None => None,
        }
    }

    pub fn contains(&self, key: &str) -> (r: bool)
        requires
            self.wf(),
        ensures
            r == self@.contains_key(key@),
    {
        self.position(key).is_some()
    }

    /// The value of `key`, to be changed.
    pub fn get_mut(&mut self, key: &str) -> (r: Option<&mut V>)
        requires
            old(self).wf(),
        ensures
            match r {
                Some(v) => {
                    &&& old(self)@.contains_key(key@)
                    &&& *v == old(self)@[key@]
                    &&& final(self).wf()
                    &&& final(self)@ == old(self)@.insert(key@, *final(v))
                    &&& exists|i: int|
                        0 <= i < old(self).entries@.len() && (#[trigger] old(self).entries@[i]).0@
                            == key@ && final(self).entries@ == old(self).entries@.update(
                            i,
                            (old(self).entries@[i].0, *final(v)),
                        )
                },
                None => !old(self)@.contains_key(key@) && *final(self) == *old(self),
            },
    {
        let ghost was = self.entries@;
        match self.position(key) {
            Some(i) => {
                proof {
                    lemma_set_value(was, i as int);
                }
                Some(&mut self.entries[i].1)
            },
            None => None,
        }
    }

    /// `key` is now mapped to `value`; a new key goes last.
    pub fn insert(&mut self, key: String, value: V)
        requires
            old(self).wf(),
        ensures
            final(self).wf(),
            final(self)@ == old(self)@.insert(key@, value),
            if old(self)@.contains_key(key@) {
                exists|i: int|
                    0 <= i < old(self).entries@.len() && (#[trigger] old(self).entries@[i]).0@
                        == key@ && final(self).entries@ == old(self).entries@.update(
                        i,
                        (key, value),
                    )
            } else {
                final(self).entries@ == old(self).entries@.push((key, value))
            },
    {
        let ghost was = self.entries@;
        proof {
            lemma_map_of(was);
        }
        match self.position(key.as_str()) {
            Some(i) => {
                self.entries.set(i, (key, value));
                assert(was[i as int].0@ == key@);
                proof {
                    let now = self.entries@;
                    assert forall|a: int, b: int| 0 <= a < b < now.len() implies (
                    #[trigger] now[a]).0@ != (#[trigger] now[b]).0@ by {
                        assert(was[a].0@ != was[b].0@);
                    }
                    lemma_map_of(now);
                    let m = map_of(was).insert(key@, value);
                    assert forall|k: Seq<char>| map_of(now).contains_key(k)
                        == m.contains_key(k) by {
                        if m.contains_key(k) && k != key@ {
                            let j = choose|j: int| 0 <= j < was.len() && (#[trigger] was[j]).0@ == k;
                            assert(now[j].0@ == k);
                        }
                        if k == key@ {
                            assert(now[i as int].0@ == k);
                        }
                        if map_of(now).contains_key(k) {
                            let j = choose|j: int| 0 <= j < now.len() && (#[trigger] now[j]).0@ == k;
                            assert(was[j].0@ == k);
                        }
                    }
                    assert forall|k: Seq<char>| m.contains_key(k) implies map_of(now)[k]
                        == m[k] by {
                        assert(map_of(now).contains_key(k));
                        let j = choose|j: int| 0 <= j < now.len() && (#[trigger] now[j]).0@ == k;
                        assert(was[j].0@ == k);
                    }
                    assert(map_of(now) =~= m);
                }
            },
            None => {
                self.entries.push((key, value));
                proof {
                    let now = self.entries@;
                    assert(now.drop_last() =~= was);
                    assert forall|a: int, b: int| 0 <= a < b < now.len() implies (
                    #[trigger] now[a]).0@ != (#[trigger] now[b]).0@ by {
                        assert(now[a] == was[a]);
                        if b < was.len() {
                            assert(was[a].0@ != was[b].0@);
                        } else {
                            assert(map_of(was).contains_key(was[a].0@));
                        }
                    }
                }
            },
        }
    }

    /// `key` is mapped to nothing; what it was mapped to is handed out.
    pub fn remove(&mut self, key: &str) -> (r: Option<V>)
        requires
            old(self).wf(),
        ensures
            final(self).wf(),
            final(self)@ == old(self)@.remove(key@),
            match r {
                Some(v) => old(self)@.contains_key(key@) && old(self)@[key@] == v && (exists|i: int|
                    0 <= i < old(self).entries@.len() && (#[trigger] old(self).entries@[i]).0@
                        == key@ && final(self).entries@ == old(self).entries@.remove(i)),
                None => !old(self)@.contains_key(key@) && final(self).entries@ == old(
                    self,
                ).entries@,
            },
    {
        let ghost was = self.entries@;
        proof {
            lemma_map_of(was);
        }
        match self.position(key) {
            None => {
                assert(map_of(was).remove(key@) =~= map_of(was));
                None
            },
            Some(i) => {
                let (_, v) = self.entries.remove(i);
                assert(was[i as int].0@ == key@);
                proof {
                    let now = self.entries@;
                    assert forall|a: int, b: int| 0 <= a < b < now.len() implies (
                    #[trigger] now[a]).0@ != (#[trigger] now[b]).0@ by {
                        let x = if a < i {
                            a
                        } else {
                            a + 1
                        };
                        let y = if b < i {
                            b
                        } else {
                            b + 1
                        };
                        assert(was[x].0@ != was[y].0@);
                    }
                    lemma_map_of(now);
                    let m = map_of(was).remove(key@);
                    assert forall|k: Seq<char>| map_of(now).contains_key(k)
                        == m.contains_key(k) by {
                        if m.contains_key(k) {
                            let j = choose|j: int| 0 <= j < was.len() && (#[trigger] was[j]).0@ == k;
                            assert(j != i);
                            assert(now[if j < i {
                                j
                            } else {
                                j - 1
                            }].0@ == k);
                        }
                        if map_of(now).contains_key(k) {
                            let j = choose|j: int| 0 <= j < now.len() && (#[trigger] now[j]).0@ == k;
                            let x = if j < i {
                                j
                            } else {
                                j + 1
                            };
                            assert(was[x].0@ == k);
                            if k == key@ {
                                if x < i {
                                    assert(was[x].0@ != was[i as int].0@);
                                } else {
                                    assert(was[i as int].0@ != was[x].0@);
                                }
                            }
                        }
                    }
                    assert forall|k: Seq<char>| m.contains_key(k) implies map_of(now)[k]
                        == m[k] by {
                        assert(map_of(now).contains_key(k));
                        let j = choose|j: int| 0 <= j < now.len() && (#[trigger] now[j]).0@ == k;
                        let x = if j < i {
                            j
                        } else {
                            j + 1
                        };
                        assert(was[x] == now[j]);
                    }
                    assert(map_of(now) =~= m);
                }
                Some(v)
            },
        }
    }
}

} // verus!
