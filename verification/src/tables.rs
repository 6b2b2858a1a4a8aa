//! Small keyed tables of the queue manager: sets of (queue, item) pairs and
//! the debounce table.
use vstd::prelude::*;

verus! {

/// An item (a group ID or a unique key) that belongs to a queue.
pub struct QueueItem {
    pub queue: String,
    pub item: String,
}

/// The (queue, item) pairs of `v`, as a set of values.
pub open spec fn pairs_view(v: Seq<QueueItem>) -> Set<(Seq<char>, Seq<char>)> {
    Set::new(|p: (Seq<char>, Seq<char>)| exists|i: int| 0 <= i < v.len() && v[i].queue@ == p.0 && v[i].item@ == p.1)
}

/// The items of queue `q` in `v`.
pub open spec fn items_of(v: Seq<QueueItem>, q: Seq<char>) -> Seq<Seq<char>> {
    v.filter(|e: QueueItem| e.queue@ == q).map_values(|e: QueueItem| e.item@)
}

/// Whether `(q, k)` is in the set.
pub fn pair_contains(v: &Vec<QueueItem>, q: &String, k: &String) -> (r: bool)
    ensures
        r == pairs_view(v@).contains((q@, k@)),
{
    let mut i: usize = 0;
    while i < v.len()
        invariant
            i <= v.len(),
            forall|j: int| 0 <= j < i ==> !(v@[j].queue@ == q@ && v@[j].item@ == k@),
        decreases v.len() - i,
    {
        if v[i].queue == *q && v[i].item == *k {
            assert(pairs_view(v@).contains((q@, k@)));
            return true;
        }
        i = i + 1;
    }
    false
}

/// Adds `(q, k)` to the set.
pub fn pair_insert(v: &mut Vec<QueueItem>, q: &String, k: &String)
    ensures
        pairs_view(final(v)@) == pairs_view(old(v)@).insert((q@, k@)),
{
    if !pair_contains(v, q, k) {
        let ghost before = v@;
        v.push(QueueItem { queue: q.clone(), item: k.clone() });
        assert(pairs_view(v@) =~= pairs_view(before).insert((q@, k@))) by {
            assert forall|p: (Seq<char>, Seq<char>)| pairs_view(v@).contains(p) implies pairs_view(
                before,
            ).insert((q@, k@)).contains(p) by {
                let i = choose|i: int| 0 <= i < v@.len() && v@[i].queue@ == p.0 && v@[i].item@ == p.1;
                if i < before.len() {
                    assert(before[i] == v@[i]);
                }
            }
            assert forall|p: (Seq<char>, Seq<char>)| pairs_view(before).insert((q@, k@)).contains(p) implies pairs_view(
                v@,
            ).contains(p) by {
                if p == (q@, k@) {
                    assert(v@[before.len() as int].queue@ == q@);
                } else {
                    let i = choose|i: int| 0 <= i < before.len() && before[i].queue@ == p.0 && before[i].item@ == p.1;
                    assert(v@[i] == before[i]);
                }
            }
        }
    } else {
        assert(pairs_view(v@) =~= pairs_view(v@).insert((q@, k@)));
    }
}

/// Removes `(q, k)` from the set.
pub fn pair_remove(v: &mut Vec<QueueItem>, q: &String, k: &String)
    ensures
        pairs_view(final(v)@) == pairs_view(old(v)@).remove((q@, k@)),
{
    let ghost target = pairs_view(old(v)@).remove((q@, k@));
    let mut out: Vec<QueueItem> = Vec::new();
    let ghost orig = v@;
    while v.len() > 0
        invariant
            forall|p: (Seq<char>, Seq<char>)| #![trigger target.contains(p)]
                target.contains(p) <==> (p != (q@, k@) && (pairs_view(out@).contains(p) || pairs_view(v@).contains(p))),
            !pairs_view(out@).contains((q@, k@)),
        decreases v.len(),
    {
        let ghost vb = v@;
        let ghost ob = out@;
        let e = v.pop().unwrap();
        assert(vb =~= v@.push(e));
        let same = e.queue == *q && e.item == *k;
        if !same {
            out.push(e);
        }
        assert forall|p: (Seq<char>, Seq<char>)| #![trigger target.contains(p)]
            target.contains(p) <==> (p != (q@, k@) && (pairs_view(out@).contains(p) || pairs_view(v@).contains(p))) by {
            if pairs_view(vb).contains(p) {
                let i = choose|i: int| 0 <= i < vb.len() && vb[i].queue@ == p.0 && vb[i].item@ == p.1;
                if i < v@.len() {
                    assert(v@[i] == vb[i]);
                } else if !same {
                    assert(out@[ob.len() as int] == e);
                }
            }
            if pairs_view(out@).contains(p) {
                let i = choose|i: int| 0 <= i < out@.len() && out@[i].queue@ == p.0 && out@[i].item@ == p.1;
                if i < ob.len() {
                    assert(ob[i] == out@[i]);
                } else {
                    assert(vb[v@.len() as int] == e);
                }
            }
            if pairs_view(v@).contains(p) {
                let i = choose|i: int| 0 <= i < v@.len() && v@[i].queue@ == p.0 && v@[i].item@ == p.1;
                assert(vb[i] == v@[i]);
            }
            if pairs_view(ob).contains(p) {
                let i = choose|i: int| 0 <= i < ob.len() && ob[i].queue@ == p.0 && ob[i].item@ == p.1;
                assert(out@[i] == ob[i]);
            }
        }
        assert(!pairs_view(out@).contains((q@, k@))) by {
            if pairs_view(out@).contains((q@, k@)) {
                let i = choose|i: int| 0 <= i < out@.len() && out@[i].queue@ == q@ && out@[i].item@ == k@;
                if i < ob.len() {
                    assert(ob[i] == out@[i]);
                }
            }
        }
    }
    *v = out;
    assert(pairs_view(v@) =~= target);
}

/// A debounce entry: pushes with this ID to this queue are refused until
/// `expiry`.
pub struct DebounceEntry {
    pub queue: String,
    pub id: String,
    pub expiry: u64,
}

/// No two entries share a (queue, id) pair.
pub open spec fn debounce_unique(v: Seq<DebounceEntry>) -> bool {
    forall|i: int, j: int|
        0 <= i < v.len() && 0 <= j < v.len() && i != j ==> !(v[i].queue@ == v[j].queue@ && v[i].id@
            == v[j].id@)
}

/// The debounce table as a map from (queue, id) to expiry.
pub open spec fn debounce_view(v: Seq<DebounceEntry>) -> Map<(Seq<char>, Seq<char>), u64> {
    Map::new(
        |p: (Seq<char>, Seq<char>)| exists|i: int| 0 <= i < v.len() && v[i].queue@ == p.0 && v[i].id@ == p.1,
        |p: (Seq<char>, Seq<char>)| {
            let i = choose|i: int| 0 <= i < v.len() && v[i].queue@ == p.0 && v[i].id@ == p.1;
            v[i].expiry
        },
    )
}

/// Position of the entry for `(q, d)`.
pub fn debounce_find(v: &Vec<DebounceEntry>, q: &String, d: &String) -> (r: Option<usize>)
    requires
        debounce_unique(v@),
    ensures
        match r {
            Some(i) => i < v@.len() && v@[i as int].queue@ == q@ && v@[i as int].id@ == d@
                && debounce_view(v@).contains_key((q@, d@))
                && debounce_view(v@)[(q@, d@)] == v@[i as int].expiry,
            None => !debounce_view(v@).contains_key((q@, d@)),
        },
{
    let mut i: usize = 0;
    while i < v.len()
        invariant
            i <= v.len(),
            forall|j: int| 0 <= j < i ==> !(v@[j].queue@ == q@ && v@[j].id@ == d@),
            debounce_unique(v@),
        decreases v.len() - i,
    {
        if v[i].queue == *q && v[i].id == *d {
            proof {
                let p = (q@, d@);
                assert(debounce_view(v@).contains_key(p));
                let c = choose|c: int| 0 <= c < v@.len() && v@[c].queue@ == p.0 && v@[c].id@ == p.1;
                if c != i {
                    assert(!(v@[c].queue@ == v@[i as int].queue@ && v@[c].id@ == v@[i as int].id@));
                }
            }
            return Some(i);
        }
        i = i + 1;
    }
    None
}

/// Sets the expiry of `(q, d)`.
pub fn debounce_set(v: &mut Vec<DebounceEntry>, q: &String, d: &String, expiry: u64)
    requires
        debounce_unique(old(v)@),
    ensures
        debounce_unique(final(v)@),
        debounce_view(final(v)@) == debounce_view(old(v)@).insert((q@, d@), expiry),
{
    let ghost before = v@;
    let ghost target = debounce_view(before).insert((q@, d@), expiry);
    match debounce_find(v, q, d) {
        Some(i) => {
            let e = DebounceEntry { queue: q.clone(), id: d.clone(), expiry };
            v.set(i, e);
            assert(debounce_view(v@) =~= target) by {
                assert forall|p: (Seq<char>, Seq<char>)| debounce_view(v@).contains_key(p) == target.contains_key(p) by {
                    if debounce_view(v@).contains_key(p) {
                        let c = choose|c: int| 0 <= c < v@.len() && v@[c].queue@ == p.0 && v@[c].id@ == p.1;
                        if c != i {
                            assert(before[c] == v@[c]);
                        }
                    }
                    if debounce_view(before).contains_key(p) {
                        let c = choose|c: int| 0 <= c < before.len() && before[c].queue@ == p.0 && before[c].id@ == p.1;
                        if c != i {
                            assert(before[c] == v@[c]);
                        }
                    }
                    if p == (q@, d@) {
                        assert(v@[i as int].queue@ == q@ && v@[i as int].id@ == d@);
                    }
                }
                assert forall|p: (Seq<char>, Seq<char>)| #[trigger] debounce_view(v@).contains_key(p) implies debounce_view(v@)[p] == target[p] by {
                    let c = choose|c: int| 0 <= c < v@.len() && v@[c].queue@ == p.0 && v@[c].id@ == p.1;
                    if p == (q@, d@) {
                        assert(c == i);
                    } else {
                        assert(c != i);
                        assert(before[c] == v@[c]);
                        let c2 = choose|c2: int| 0 <= c2 < before.len() && before[c2].queue@ == p.0 && before[c2].id@ == p.1;
                        assert(c2 == c);
                    }
                }
            }
        },
        None => {
            v.push(DebounceEntry { queue: q.clone(), id: d.clone(), expiry });
            let ghost n = before.len() as int;
            assert(debounce_unique(v@)) by {
                assert forall|i: int, j: int|
                    0 <= i < v@.len() && 0 <= j < v@.len() && i != j implies !(v@[i].queue@ == v@[j].queue@
                        && v@[i].id@ == v@[j].id@) by {
                    if i == n && j < n {
                        assert(v@[j] == before[j]);
                    } else if j == n && i < n {
                        assert(v@[i] == before[i]);
                    } else if i < n && j < n {
                        assert(v@[i] == before[i] && v@[j] == before[j]);
                    }
                }
            }
            assert(debounce_view(v@) =~= target) by {
                assert forall|p: (Seq<char>, Seq<char>)| debounce_view(v@).contains_key(p) == target.contains_key(p) by {
                    if debounce_view(v@).contains_key(p) {
                        let c = choose|c: int| 0 <= c < v@.len() && v@[c].queue@ == p.0 && v@[c].id@ == p.1;
                        if c < n {
                            assert(before[c] == v@[c]);
                        }
                    }
                    if debounce_view(before).contains_key(p) {
                        let c = choose|c: int| 0 <= c < before.len() && before[c].queue@ == p.0 && before[c].id@ == p.1;
                        assert(before[c] == v@[c]);
                    }
                    if p == (q@, d@) {
                        assert(v@[n].queue@ == q@);
                    }
                }
                assert forall|p: (Seq<char>, Seq<char>)| #[trigger] debounce_view(v@).contains_key(p) implies debounce_view(v@)[p] == target[p] by {
                    let c = choose|c: int| 0 <= c < v@.len() && v@[c].queue@ == p.0 && v@[c].id@ == p.1;
                    if p == (q@, d@) {
                        if c < n {
                            assert(before[c] == v@[c]);
                        }
                    } else {
                        assert(c != n);
                        assert(before[c] == v@[c]);
                        let c2 = choose|c2: int| 0 <= c2 < before.len() && before[c2].queue@ == p.0 && before[c2].id@ == p.1;
                        assert(v@[c2] == before[c2]);
                    }
                }
            }
        },
    }
}

/// A name and the ID it stands for.
pub struct NamedId {
    pub name: String,
    pub id: u64,
}

/// IDs by name; no name occurs twice.
pub struct IdsByName {
    entries: Vec<NamedId>,
}

impl View for IdsByName {
    type V = Map<Seq<char>, u64>;

    closed spec fn view(&self) -> Map<Seq<char>, u64> {
        Map::new(
            |k: Seq<char>| exists|i: int| 0 <= i < self.entries@.len() && self.entries@[i].name@ == k,
            |k: Seq<char>| {
                let i = choose|i: int| 0 <= i < self.entries@.len() && self.entries@[i].name@ == k;
                self.entries@[i].id
            },
        )
    }
}

impl IdsByName {
    #[verifier::type_invariant]
    closed spec fn names_unique(self) -> bool {
        forall|i: int, j: int|
            0 <= i < self.entries@.len() && 0 <= j < self.entries@.len() && i != j ==> self.entries@[i].name@
                != self.entries@[j].name@
    }

    /// An empty table.
    pub fn new() -> (r: IdsByName)
        ensures
            r@ == Map::<Seq<char>, u64>::empty(),
    {
        let r = IdsByName { entries: Vec::new() };
        assert(r@ =~= Map::<Seq<char>, u64>::empty());
        r
    }

    /// Position of `k`.
    fn find(&self, k: &str) -> (r: Option<usize>)
        ensures
            match r {
                Some(i) => i < self.entries@.len() && self.entries@[i as int].name@ == k@ && self@.contains_key(k@)
                    && self@[k@] == self.entries@[i as int].id,
                None => !self@.contains_key(k@),
            },
    {
        proof {
            use_type_invariant(self);
        }
        let mut i: usize = 0;
        while i < self.entries.len()
            invariant
                i <= self.entries@.len(),
                forall|j: int| 0 <= j < i ==> self.entries@[j].name@ != k@,
                forall|a: int, b: int|
                    0 <= a < self.entries@.len() && 0 <= b < self.entries@.len() && a != b ==> self.entries@[a].name@
                        != self.entries@[b].name@,
            decreases self.entries.len() - i,
        {
            if crate::nats_rules::str_is(self.entries[i].name.as_str(), k) {
                proof {
                    assert(self@.contains_key(k@));
                    let c = choose|c: int| 0 <= c < self.entries@.len() && self.entries@[c].name@ == k@;
                    if c != i {
                        assert(self.entries@[c].name@ != self.entries@[i as int].name@);
                    }
                }
                return Some(i);
            }
            i = i + 1;
        }
        None
    }

    /// The ID of name `k`.
    pub fn get(&self, k: &str) -> (r: Option<u64>)
        ensures
            match r {
                Some(id) => self@.contains_key(k@) && self@[k@] == id,
                None => !self@.contains_key(k@),
            },
    {
        match self.find(k) {
            Some(i) => Some(self.entries[i].id),
            None => None,
        }
    }

    /// Forgets name `k`.
    pub fn remove(&mut self, k: &str)
        ensures
            final(self)@ == old(self)@.remove(k@),
    {
        proof {
            use_type_invariant(&*self);
        }
        let ghost before = self.entries@;
        let ghost m0 = self@;
        match self.find(k) {
            Some(i) => {
                let mut entries = Vec::new();
                std::mem::swap(&mut entries, &mut self.entries);
                entries.remove(i);
                let ghost after = entries@;
                proof {
                    assert forall|a: int, b: int| 0 <= a < after.len() && 0 <= b < after.len() && a != b implies after[a].name@ != after[b].name@ by {
                        let a2 = if a < i { a } else { a + 1 };
                        let b2 = if b < i { b } else { b + 1 };
                        assert(after[a] == before[a2] && after[b] == before[b2]);
                    }
                }
                self.entries = entries;
                proof {
                    assert forall|key: Seq<char>| self@.contains_key(key) == m0.remove(k@).contains_key(key) by {
                        if self@.contains_key(key) {
                            let c = choose|c: int| 0 <= c < after.len() && after[c].name@ == key;
                            let c2 = if c < i { c } else { c + 1 };
                            assert(after[c] == before[c2]);
                            assert(c2 != i);
                        }
                        if m0.remove(k@).contains_key(key) {
                            let c = choose|c: int| 0 <= c < before.len() && before[c].name@ == key;
                            assert(c != i);
                            let c3 = if c < i { c } else { c - 1 };
                            assert(after[c3] == before[c]);
                        }
                    }
                    assert forall|key: Seq<char>| #[trigger] self@.contains_key(key) implies self@[key] == m0.remove(k@)[key] by {
                        let c = choose|c: int| 0 <= c < after.len() && after[c].name@ == key;
                        let c2 = if c < i { c } else { c + 1 };
                        assert(after[c] == before[c2]);
                        let c0 = choose|c0: int| 0 <= c0 < before.len() && before[c0].name@ == key;
                        assert(c0 == c2);
                    }
                    assert(self@ =~= m0.remove(k@));
                }
            },
            None => {
                assert(self@ =~= m0.remove(k@));
            },
        }
    }

    /// Sets the ID of name `k`.
    pub fn insert(&mut self, k: String, id: u64)
        ensures
            final(self)@ == old(self)@.insert(k@, id),
    {
        self.remove(k.as_str());
        proof {
            use_type_invariant(&*self);
        }
        let ghost before = self.entries@;
        let ghost m0 = self@;
        let ghost kv = k@;
        let mut entries = Vec::new();
        std::mem::swap(&mut entries, &mut self.entries);
        entries.push(NamedId { name: k, id });
        let ghost after = entries@;
        let ghost n = before.len() as int;
        proof {
            assert(!m0.contains_key(kv));
            assert forall|a: int, b: int| 0 <= a < after.len() && 0 <= b < after.len() && a != b implies after[a].name@ != after[b].name@ by {
                if a == n {
                    assert(after[b] == before[b]);
                    if before[b].name@ == kv {
                        assert(m0.contains_key(kv));
                    }
                } else if b == n {
                    assert(after[a] == before[a]);
                    if before[a].name@ == kv {
                        assert(m0.contains_key(kv));
                    }
                } else {
                    assert(after[a] == before[a] && after[b] == before[b]);
                }
            }
        }
        self.entries = entries;
        proof {
            let target = m0.insert(kv, id);
            assert forall|key: Seq<char>| self@.contains_key(key) == target.contains_key(key) by {
                if self@.contains_key(key) {
                    let c = choose|c: int| 0 <= c < after.len() && after[c].name@ == key;
                    if c < n {
                        assert(after[c] == before[c]);
                    }
                }
                if m0.contains_key(key) {
                    let c = choose|c: int| 0 <= c < before.len() && before[c].name@ == key;
                    assert(after[c] == before[c]);
                }
                assert(after[n].name@ == kv);
            }
            assert forall|key: Seq<char>| #[trigger] self@.contains_key(key) implies self@[key] == target[key] by {
                let c = choose|c: int| 0 <= c < after.len() && after[c].name@ == key;
                if key == kv {
                    if c < n {
                        assert(after[c] == before[c]);
                        assert(m0.contains_key(kv));
                    }
                } else {
                    assert(c != n);
                    assert(after[c] == before[c]);
                    let c0 = choose|c0: int| 0 <= c0 < before.len() && before[c0].name@ == key;
                    assert(after[c0] == before[c0]);
                }
            }
            assert(self@ =~= target);
        }
    }

    /// Forgets every name whose ID is in `ids`.
    pub fn retain_not_in(&mut self, ids: &Vec<u64>)
        ensures
            final(self)@ == old(self)@.restrict(Set::new(|k: Seq<char>| !ids@.contains(old(self)@[k]))),
    {
        proof {
            use_type_invariant(&*self);
        }
        let ghost before = self.entries@;
        let ghost m0 = self@;
        let mut entries = Vec::new();
        std::mem::swap(&mut entries, &mut self.entries);
        let mut kept: Vec<NamedId> = Vec::new();
        let ghost mut wit: Seq<int> = Seq::empty();
        let mut i: usize = 0;
        while i < entries.len()
            invariant
                i <= entries@.len(),
                entries@ == before,
                forall|a: int, b: int| 0 <= a < before.len() && 0 <= b < before.len() && a != b ==> before[a].name@ != before[b].name@,
                wit.len() == kept@.len(),
                forall|a: int| 0 <= a < kept@.len() ==> 0 <= #[trigger] wit[a] < i && before[wit[a]] == kept@[a] && !ids@.contains(before[wit[a]].id),
                forall|a: int, b: int| 0 <= a < b < kept@.len() ==> wit[a] < wit[b],
                forall|c: int| 0 <= c < i && !ids@.contains(before[c].id) ==> exists|a: int| 0 <= a < kept@.len() && #[trigger] wit[a] == c,
            decreases entries.len() - i,
        {
            let id = entries[i].id;
            let mut found = false;
            let mut j: usize = 0;
            while j < ids.len()
                invariant
                    j <= ids@.len(),
                    found == (exists|x: int| 0 <= x < j && ids@[x] == id),
                decreases ids.len() - j,
            {
                if ids[j] == id {
                    found = true;
                }
                j = j + 1;
            }
            let ghost k0 = kept@;
            let ghost w0 = wit;
            if !found {
                let e = NamedId { name: entries[i].name.clone(), id };
                kept.push(e);
                proof {
                    assert(!ids@.contains(before[i as int].id));
                    wit = wit.push(i as int);
                    assert(kept@[k0.len() as int] == before[i as int]);
                    assert forall|a: int| 0 <= a < kept@.len() implies 0 <= #[trigger] wit[a] < i + 1 && before[wit[a]] == kept@[a] && !ids@.contains(before[wit[a]].id) by {
                        if a < k0.len() {
                            assert(wit[a] == w0[a] && kept@[a] == k0[a]);
                        }
                    }
                    assert forall|c: int| 0 <= c < i + 1 && !ids@.contains(before[c].id) implies exists|a: int| 0 <= a < kept@.len() && #[trigger] wit[a] == c by {
                        if c < i {
                            let a = choose|a: int| 0 <= a < k0.len() && #[trigger] w0[a] == c;
                            assert(wit[a] == w0[a]);
                        } else {
                            assert(wit[k0.len() as int] == c);
                        }
                    }
                }
            } else {
                proof {
                    assert(ids@.contains(before[i as int].id)) by {
                        let x = choose|x: int| 0 <= x < ids@.len() && ids@[x] == id;
                    }
                }
            }
            i = i + 1;
        }
        proof {
            let after = kept@;
            assert forall|a: int, b: int| 0 <= a < after.len() && 0 <= b < after.len() && a != b implies after[a].name@ != after[b].name@ by {
                if a < b {
                    assert(wit[a] < wit[b]);
                } else {
                    assert(wit[b] < wit[a]);
                }
                assert(before[wit[a]] == after[a] && before[wit[b]] == after[b]);
            }
        }
        self.entries = kept;
        proof {
            let target = m0.restrict(Set::new(|k: Seq<char>| !ids@.contains(m0[k])));
            let after = self.entries@;
            assert forall|key: Seq<char>| self@.contains_key(key) == target.contains_key(key) by {
                if self@.contains_key(key) {
                    let a = choose|a: int| 0 <= a < after.len() && after[a].name@ == key;
                    let c = wit[a];
                    assert(before[c] == after[a]);
                    let c0 = choose|c0: int| 0 <= c0 < before.len() && before[c0].name@ == key;
                    assert(c0 == c);
                }
                if target.contains_key(key) {
                    let c = choose|c: int| 0 <= c < before.len() && before[c].name@ == key;
                    assert(!ids@.contains(before[c].id));
                    let a = choose|a: int| 0 <= a < after.len() && #[trigger] wit[a] == c;
                    assert(after[a] == before[c]);
                }
            }
            assert forall|key: Seq<char>| #[trigger] self@.contains_key(key) implies self@[key] == target[key] by {
                let a = choose|a: int| 0 <= a < after.len() && after[a].name@ == key;
                let c = wit[a];
                assert(before[c] == after[a]);
                let c0 = choose|c0: int| 0 <= c0 < before.len() && before[c0].name@ == key;
                assert(c0 == c);
            }
            assert(self@ =~= target);
        }
    }
}

} // verus!
