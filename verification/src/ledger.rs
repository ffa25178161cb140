//! Per-instance restart-count ledger: which restart count was last seen for
//! every container of every tracked workload instance.

use vstd::prelude::*;

verus! {

/// The finite map described by an association list: later entries win.
pub open spec fn assoc_map<V: View>(items: Seq<(String, V)>) -> Map<Seq<char>, V::V>
    decreases items.len(),
{
    if items.len() == 0 {
        Map::empty()
    } else {
        assoc_map(items.drop_last()).insert(items.last().0@, items.last().1@)
    }
}

/// All keys of the association list are distinct.
pub open spec fn assoc_distinct<V>(items: Seq<(String, V)>) -> bool {
    forall|i: int, j: int| 0 <= i < j < items.len() ==> items[i].0@ != items[j].0@
}

/// A key is in the map exactly when some entry carries it.
proof fn lemma_assoc_contains<V: View>(items: Seq<(String, V)>, k: Seq<char>)
    ensures
        assoc_map(items).contains_key(k) <==> (exists|i: int|
            0 <= i < items.len() && items[i].0@ == k),
    decreases items.len(),
{
    if items.len() > 0 {
        let sub = items.drop_last();
        lemma_assoc_contains(sub, k);
        if items.last().0@ == k {
            assert(items[items.len() - 1].0@ == k);
        } else {
            if assoc_map(items).contains_key(k) {
                let i = choose|i: int| 0 <= i < sub.len() && sub[i].0@ == k;
                assert(items[i].0@ == k);
            }
            if exists|i: int| 0 <= i < items.len() && items[i].0@ == k {
                let i = choose|i: int| 0 <= i < items.len() && items[i].0@ == k;
                assert(sub[i].0@ == k);
            }
        }
    }
}

/// With distinct keys, the entry at `i` gives its key's value in the map.
proof fn lemma_assoc_get<V: View>(items: Seq<(String, V)>, i: int)
    requires
        assoc_distinct(items),
        0 <= i < items.len(),
    ensures
        assoc_map(items).contains_key(items[i].0@),
        assoc_map(items)[items[i].0@] == items[i].1@,
    decreases items.len(),
{
    if i < items.len() - 1 {
        let sub = items.drop_last();
        assert(assoc_distinct(sub));
        lemma_assoc_get(sub, i);
        assert(items.last().0@ != items[i].0@);
    }
}

/// Replacing the entry at `i` by one with the same key updates the map at
/// that key alone.
proof fn lemma_assoc_update<V: View>(items: Seq<(String, V)>, i: int, entry: (String, V))
    requires
        assoc_distinct(items),
        0 <= i < items.len(),
        entry.0@ == items[i].0@,
    ensures
        assoc_map(items.update(i, entry)) =~= assoc_map(items).insert(entry.0@, entry.1@),
        assoc_distinct(items.update(i, entry)),
    decreases items.len(),
{
    let updated = items.update(i, entry);
    if i == items.len() - 1 {
        assert(updated.drop_last() =~= items.drop_last());
        assert(updated.last() == entry);
    } else {
        let sub = items.drop_last();
        assert(assoc_distinct(sub));
        lemma_assoc_update(sub, i, entry);
        assert(updated.drop_last() =~= sub.update(i, entry));
        assert(updated.last() == items.last());
        assert(items.last().0@ != entry.0@);
    }
}

/// Appending an entry with a fresh key inserts it into the map.
proof fn lemma_assoc_push<V: View>(items: Seq<(String, V)>, entry: (String, V))
    requires
        assoc_distinct(items),
        forall|i: int| 0 <= i < items.len() ==> items[i].0@ != entry.0@,
    ensures
        assoc_map(items.push(entry)) =~= assoc_map(items).insert(entry.0@, entry.1@),
        assoc_distinct(items.push(entry)),
{
    assert(items.push(entry).drop_last() =~= items);
    assert(items.push(entry).last() == entry);
}

/// Removing the entry at `i` removes its key from the map.
proof fn lemma_assoc_remove<V: View>(items: Seq<(String, V)>, i: int)
    requires
        assoc_distinct(items),
        0 <= i < items.len(),
    ensures
        assoc_map(items.remove(i)) =~= assoc_map(items).remove(items[i].0@),
        assoc_distinct(items.remove(i)),
    decreases items.len(),
{
    let removed = items.remove(i);
    if i == items.len() - 1 {
        assert(removed =~= items.drop_last());
        lemma_assoc_contains(removed, items[i].0@);
        assert(forall|j: int| 0 <= j < removed.len() ==> removed[j].0@ != items[i].0@);
    } else {
        let sub = items.drop_last();
        assert(assoc_distinct(sub));
        lemma_assoc_remove(sub, i);
        assert(removed.drop_last() =~= sub.remove(i));
        assert(removed.last() == items.last());
        assert(items.last().0@ != items[i].0@);
    }
}

/// Map from container name to the restart count last seen for it.
pub struct CountsMap {
    items: Vec<(String, i32)>,
}

impl View for CountsMap {
    type V = Map<Seq<char>, i32>;

    closed spec fn view(&self) -> Map<Seq<char>, i32> {
        assoc_map(self.items@)
    }
}

impl CountsMap {
    /// Internal keys are distinct, so each container name has one count.
    pub closed spec fn wf(&self) -> bool {
        assoc_distinct(self.items@)
    }

    /// An empty counts map.
    pub fn new() -> (result: CountsMap)
        ensures
            result.wf(),
            result@ =~= Map::<Seq<char>, i32>::empty(),
    {
        CountsMap { items: Vec::new() }
    }

    /// Index of the entry carrying `name`, if one exists.
    fn index_of(&self, name: &String) -> (result: Option<usize>)
        ensures
            match result {
                Some(i) => i < self.items@.len() && self.items@[i as int].0@ == name@,
                None => forall|i: int| 0 <= i < self.items@.len() ==> self.items@[i].0@ != name@,
            },
    {
        let mut i: usize = 0;
        while i < self.items.len()
            invariant
                i <= self.items.len(),
                forall|j: int| 0 <= j < i ==> self.items@[j].0@ != name@,
            decreases self.items.len() - i,
        {
            if self.items[i].0 == *name {
                return Some(i);
            }
            i = i + 1;
        }
        None
    }

    /// The count recorded for `name`, if that container has been seen.
    pub fn get(&self, name: &String) -> (result: Option<i32>)
        requires
            self.wf(),
        ensures
            match result {
                Some(c) => self@.contains_key(name@) && self@[name@] == c,
                None => !self@.contains_key(name@),
            },
    {
        proof {
            lemma_assoc_contains(self.items@, name@);
        }
        match self.index_of(name) {
            Some(i) => {
                proof {
                    lemma_assoc_get(self.items@, i as int);
                }
                Some(self.items[i].1)
            },
            None => None,
        }
    }

    /// Records `count` for `name`, inserting or overwriting.
    pub fn record(&mut self, name: &String, count: i32)
        requires
            old(self).wf(),
        ensures
            final(self).wf(),
            final(self)@ =~= old(self)@.insert(name@, count),
    {
        match self.index_of(name) {
            Some(i) => {
                let entry = (name.clone(), count);
                proof {
                    lemma_assoc_update(self.items@, i as int, entry);
                }
                self.items.set(i, entry);
            },
            None => {
                let entry = (name.clone(), count);
                proof {
                    lemma_assoc_push(self.items@, entry);
                }
                self.items.push(entry);
            },
        }
    }

    /// A copy with the same contents.
    pub fn duplicate(&self) -> (result: CountsMap)
        requires
            self.wf(),
        ensures
            result.wf(),
            result@ =~= self@,
    {
        let mut items: Vec<(String, i32)> = Vec::new();
        let mut i: usize = 0;
        while i < self.items.len()
            invariant
                i <= self.items.len(),
                items@.len() == i,
                forall|j: int| 0 <= j < i ==> items@[j].0@ == self.items@[j].0@
                    && items@[j].1 == self.items@[j].1,
            decreases self.items.len() - i,
        {
            let name = self.items[i].0.clone();
            items.push((name, self.items[i].1));
            i = i + 1;
        }
        let result = CountsMap { items };
        proof {
            lemma_assoc_congruent(result.items@, self.items@);
        }
        result
    }
}

/// Association lists with pairwise equal views describe the same map.
proof fn lemma_assoc_congruent<V: View>(a: Seq<(String, V)>, b: Seq<(String, V)>)
    requires
        a.len() == b.len(),
        forall|i: int| 0 <= i < a.len() ==> a[i].0@ == b[i].0@ && a[i].1@ == b[i].1@,
    ensures
        assoc_map(a) =~= assoc_map(b),
        assoc_distinct(a) == assoc_distinct(b),
    decreases a.len(),
{
    if a.len() > 0 {
        lemma_assoc_congruent(a.drop_last(), b.drop_last());
    }
    assert(assoc_distinct(a) ==> assoc_distinct(b));
    assert(assoc_distinct(b) ==> assoc_distinct(a));
}

/// Ledger mapping each workload-instance identity to the restart counts of
/// its containers. Owned by the watch loop alone; counts for a tracked
/// container never decrease while the instance stays in the ledger.
pub struct RestartLedger {
    entries: Vec<(String, CountsMap)>,
}

impl View for RestartLedger {
    type V = Map<Seq<char>, Map<Seq<char>, i32>>;

    closed spec fn view(&self) -> Map<Seq<char>, Map<Seq<char>, i32>> {
        assoc_map(self.entries@)
    }
}

impl RestartLedger {
    /// Identities are distinct and every counts map is well formed.
    pub closed spec fn wf(&self) -> bool {
        assoc_distinct(self.entries@) && (forall|i: int|
            0 <= i < self.entries@.len() ==> (#[trigger] self.entries@[i].1).wf())
    }

    /// An empty ledger.
    pub fn new() -> (result: RestartLedger)
        ensures
            result.wf(),
            result@ =~= Map::<Seq<char>, Map<Seq<char>, i32>>::empty(),
    {
        RestartLedger { entries: Vec::new() }
    }

    /// Index of the entry for `uid`, if the identity is tracked.
    fn index_of(&self, uid: &String) -> (result: Option<usize>)
        ensures
            match result {
                Some(i) => i < self.entries@.len() && self.entries@[i as int].0@ == uid@,
                None => forall|i: int|
                    0 <= i < self.entries@.len() ==> self.entries@[i].0@ != uid@,
            },
    {
        let mut i: usize = 0;
        while i < self.entries.len()
            invariant
                i <= self.entries.len(),
                forall|j: int| 0 <= j < i ==> self.entries@[j].0@ != uid@,
            decreases self.entries.len() - i,
        {
            if self.entries[i].0 == *uid {
                return Some(i);
            }
            i = i + 1;
        }
        None
    }

    /// Whether the identity is tracked.
    pub fn contains(&self, uid: &String) -> (result: bool)
        ensures
            result == self@.contains_key(uid@),
    {
        proof {
            lemma_assoc_contains(self.entries@, uid@);
        }
        self.index_of(uid).is_some()
    }

    /// Records `counts` for `uid`, inserting or overwriting the whole entry.
    pub fn insert(&mut self, uid: &String, counts: CountsMap)
        requires
            old(self).wf(),
            counts.wf(),
        ensures
            final(self).wf(),
            final(self)@ =~= old(self)@.insert(uid@, counts@),
    {
        match self.index_of(uid) {
            Some(i) => {
                let entry = (uid.clone(), counts);
                proof {
                    lemma_assoc_update(self.entries@, i as int, entry);
                }
                self.entries.set(i, entry);
            },
            None => {
                let entry = (uid.clone(), counts);
                proof {
                    lemma_assoc_push(self.entries@, entry);
                }
                self.entries.push(entry);
            },
        }
    }

    /// Seeds the identity with `current` when it is absent; a tracked
    /// identity is left untouched (overwriting a present one is the
    /// caller's error, so this method never does). Returns whether the
    /// identity was new, and the counts now recorded for it: the prior
    /// ones when it was tracked, `current` when it was seeded.
    pub fn get_or_init(&mut self, uid: &String, current: CountsMap) -> (result: (bool, CountsMap))
        requires
            old(self).wf(),
            current.wf(),
        ensures
            final(self).wf(),
            result.0 == !old(self)@.contains_key(uid@),
            result.1.wf(),
            result.0 ==> final(self)@ =~= old(self)@.insert(uid@, current@) && result.1@
                =~= current@,
            !result.0 ==> final(self)@ =~= old(self)@ && result.1@ =~= old(self)@[uid@],
    {
        proof {
            lemma_assoc_contains(self.entries@, uid@);
        }
        match self.index_of(uid) {
            Some(i) => {
                proof {
                    lemma_assoc_get(self.entries@, i as int);
                }
                let previous = self.entries[i].1.duplicate();
                (false, previous)
            },
            None => {
                let seeded = current.duplicate();
                let entry = (uid.clone(), current);
                proof {
                    lemma_assoc_push(self.entries@, entry);
                }
                self.entries.push(entry);
                (true, seeded)
            },
        }
    }

    /// The count last seen for a container of a tracked identity; `None`
    /// when the identity has never reported this container.
    pub fn count_of(&self, uid: &String, name: &String) -> (result: Option<i32>)
        requires
            self.wf(),
            self@.contains_key(uid@),
        ensures
            match result {
                Some(c) => self@[uid@].contains_key(name@) && self@[uid@][name@] == c,
                None => !self@[uid@].contains_key(name@),
            },
    {
        proof {
            lemma_assoc_contains(self.entries@, uid@);
        }
        match self.index_of(uid) {
            Some(i) => {
                proof {
                    lemma_assoc_get(self.entries@, i as int);
                }
                self.entries[i].1.get(name)
            },
            None => {
                proof {
                    assert(false);
                }
                None
            },
        }
    }

    /// Records `count` for one container of a tracked identity. The ledger
    /// never decreases a recorded count: the caller decides what counts as
    /// new and may only raise it.
    pub fn update(&mut self, uid: &String, name: &String, count: i32)
        requires
            old(self).wf(),
            old(self)@.contains_key(uid@),
            old(self)@[uid@].contains_key(name@) ==> old(self)@[uid@][name@] <= count,
        ensures
            final(self).wf(),
            final(self)@ =~= old(self)@.insert(uid@, old(self)@[uid@].insert(name@, count)),
    {
        proof {
            lemma_assoc_contains(self.entries@, uid@);
        }
        match self.index_of(uid) {
            Some(i) => {
                proof {
                    lemma_assoc_get(self.entries@, i as int);
                }
                let mut entry = self.entries.remove(i);
                proof {
                    lemma_assoc_remove(old(self).entries@, i as int);
                }
                entry.1.record(name, count);
                proof {
                    lemma_assoc_contains(self.entries@, uid@);
                    let ghost mid = self.entries@;
                    lemma_assoc_push(mid, (entry.0, entry.1));
                    assert(assoc_map(old(self).entries@).remove(uid@).insert(uid@, entry.1@)
                        =~= assoc_map(old(self).entries@).insert(uid@, entry.1@));
                }
                self.entries.push(entry);
            },
            None => {
                proof {
                    assert(false);
                }
            },
        }
    }

    /// Drops the entry for `uid`, if any.
    pub fn remove(&mut self, uid: &String)
        requires
            old(self).wf(),
        ensures
            final(self).wf(),
            final(self)@ =~= old(self)@.remove(uid@),
    {
        match self.index_of(uid) {
            Some(i) => {
                proof {
                    lemma_assoc_remove(self.entries@, i as int);
                }
                self.entries.remove(i);
            },
            None => {
                proof {
                    lemma_assoc_contains(self.entries@, uid@);
                    assert(self@.remove(uid@) =~= self@);
                }
            },
        }
    }

    /// Forgets every tracked identity.
    pub fn clear(&mut self)
        ensures
            final(self).wf(),
            final(self)@ =~= Map::<Seq<char>, Map<Seq<char>, i32>>::empty(),
    {
        self.entries = Vec::new();
    }
}

} // verus!
