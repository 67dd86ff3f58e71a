use vstd::prelude::*;
use crate::emote::{views, Emote, EmoteView};

verus! {

/// The field of a record that keys a table.
#[derive(Clone, Copy, Debug, PartialEq, Eq, Structural)]
pub enum KeyField {
    Id,
    Name,
}

/// The key of a record under the given field.
pub open spec fn key_of(e: EmoteView, f: KeyField) -> Seq<char> {
    match f {
        KeyField::Id => e.id,
        KeyField::Name => e.name,
    }
}

/// Inserts the records in order; a later record replaces an earlier one with the same key.
pub open spec fn overwrite(
    m: Map<Seq<char>, EmoteView>,
    s: Seq<EmoteView>,
    f: KeyField,
) -> Map<Seq<char>, EmoteView>
    decreases s.len(),
{
    if s.len() == 0 {
        m
    } else {
        overwrite(m, s.drop_last(), f).insert(key_of(s.last(), f), s.last())
    }
}

/// Inserts the records in order; a key already present keeps its record.
pub open spec fn keep_first(
    m: Map<Seq<char>, EmoteView>,
    s: Seq<EmoteView>,
    f: KeyField,
) -> Map<Seq<char>, EmoteView>
    decreases s.len(),
{
    if s.len() == 0 {
        m
    } else {
        let prev = keep_first(m, s.drop_last(), f);
        if prev.contains_key(key_of(s.last(), f)) {
            prev
        } else {
            prev.insert(key_of(s.last(), f), s.last())
        }
    }
}

/// Inserting `a` then `b` is inserting `a + b`.
pub proof fn lemma_overwrite_concat(
    m: Map<Seq<char>, EmoteView>,
    a: Seq<EmoteView>,
    b: Seq<EmoteView>,
    f: KeyField,
)
    ensures
        overwrite(overwrite(m, a, f), b, f) == overwrite(m, a + b, f),
    decreases b.len(),
{
    if b.len() == 0 {
        assert(a + b =~= a);
    } else {
        lemma_overwrite_concat(m, a, b.drop_last(), f);
        assert((a + b).drop_last() =~= a + b.drop_last());
    }
}

/// A map from keys to emote records, keyed by one field of the record.
pub struct EmoteMap {
    key: KeyField,
    entries: Vec<Emote>,
}

impl EmoteMap {
    /// The field that keys this table.
    pub closed spec fn key_field(&self) -> KeyField {
        self.key
    }

    /// The records held, in the table's order.
    pub closed spec fn records(&self) -> Seq<EmoteView> {
        views(self.entries@)
    }

    /// No two records share a key.
    pub closed spec fn wf(&self) -> bool {
        forall|i: int, j: int|
            0 <= i < j < self.entries@.len() ==> key_of(self.entries@[i]@, self.key) != key_of(
                self.entries@[j]@,
                self.key,
            )
    }

    spec fn has_key(&self, k: Seq<char>) -> bool {
        exists|i: int| 0 <= i < self.entries@.len() && key_of(self.entries@[i]@, self.key) == k
    }

    /// The table as a map from key to record.
    pub closed spec fn view(&self) -> Map<Seq<char>, EmoteView> {
        Map::new(
            |k: Seq<char>| self.has_key(k),
            |k: Seq<char>|
                self.entries@[choose|i: int|
                    0 <= i < self.entries@.len() && key_of(self.entries@[i]@, self.key) == k]@,
        )
    }

    proof fn lemma_at(&self, i: int)
        requires
            self.wf(),
            0 <= i < self.entries@.len(),
        ensures
            self.view().contains_key(key_of(self.entries@[i]@, self.key)),
            self.view()[key_of(self.entries@[i]@, self.key)] == self.entries@[i]@,
    {
        let k = key_of(self.entries@[i]@, self.key);
        assert(self.has_key(k));
        let j = choose|j: int| 0 <= j < self.entries@.len() && key_of(self.entries@[j]@, self.key) == k;
        assert(j == i);
    }

    proof fn lemma_len(&self)
        requires
            self.wf(),
        ensures
            self.view().len() == self.entries@.len(),
    {
        let keys = self.entries@.map_values(|e: Emote| key_of(e@, self.key));
        assert forall|i: int, j: int|
            0 <= i < keys.len() && 0 <= j < keys.len() && i != j implies keys[i] != keys[j] by {
            if i < j {
                assert(key_of(self.entries@[i]@, self.key) != key_of(self.entries@[j]@, self.key));
            } else {
                assert(key_of(self.entries@[j]@, self.key) != key_of(self.entries@[i]@, self.key));
            }
        }
        assert(keys.no_duplicates());
        keys.unique_seq_to_set();
        assert forall|k: Seq<char>| #[trigger] self.view().dom().contains(k) == keys.to_set().contains(k) by {
            if self.has_key(k) {
                let i = choose|i: int| 0 <= i < self.entries@.len() && key_of(self.entries@[i]@, self.key) == k;
                assert(keys[i] == k);
                assert(keys.contains(k));
            }
            if keys.contains(k) {
                let i = choose|i: int| 0 <= i < keys.len() && keys[i] == k;
                assert(key_of(self.entries@[i]@, self.key) == k);
                assert(self.has_key(k));
            }
        }
        assert(self.view().dom() =~= keys.to_set());
    }

    /// An empty table keyed by `key`.
    pub fn new(key: KeyField) -> (r: EmoteMap)
        ensures
            r.wf(),
            r.key_field() == key,
            r.view() == Map::<Seq<char>, EmoteView>::empty(),
            r.records() == Seq::<EmoteView>::empty(),
    {
        let r = EmoteMap { key, entries: Vec::new() };
        assert(r.view() =~= Map::<Seq<char>, EmoteView>::empty());
        assert(r.records() =~= Seq::<EmoteView>::empty());
        r
    }

    /// The field that keys this table.
    pub fn key(&self) -> (r: KeyField)
        ensures
            r == self.key_field(),
    {
        self.key
    }

    fn key_at(&self, i: usize) -> (r: &String)
        requires
            i < self.entries@.len(),
        ensures
            r@ == key_of(self.entries@[i as int]@, self.key),
    {
        match self.key {
            KeyField::Id => &self.entries[i].id,
            KeyField::Name => &self.entries[i].name,
        }
    }

    fn find(&self, k: &String) -> (r: Option<usize>)
        requires
            self.wf(),
        ensures
            r is None <==> !self.view().contains_key(k@),
            r matches Some(i) ==> i < self.entries@.len() && key_of(
                self.entries@[i as int]@,
                self.key,
            ) == k@,
    {
        let mut i: usize = 0;
        while i < self.entries.len()
            invariant
                i <= self.entries@.len(),
                forall|j: int| 0 <= j < i ==> key_of(self.entries@[j]@, self.key) != k@,
            decreases self.entries.len() - i,
        {
            if self.key_at(i).eq(k) {
                return Some(i);
            }
            i = i + 1;
        }
        None
    }

    /// The record under key `k`, if any.
    pub fn get(&self, k: &String) -> (r: Option<&Emote>)
        requires
            self.wf(),
        ensures
            r is Some <==> self.view().contains_key(k@),
            r matches Some(e) ==> e@ == self.view()[k@],
    {
        match self.find(k) {
            Some(i) => {
                proof { self.lemma_at(i as int); }
                Some(&self.entries[i])
            },
            None => None,
        }
    }

    /// Whether a record is held under key `k`.
    pub fn contains(&self, k: &String) -> (r: bool)
        requires
            self.wf(),
        ensures
            r == self.view().contains_key(k@),
    {
        self.find(k).is_some()
    }

    /// Stores `e` under its key, replacing any record held there.
    pub fn insert(&mut self, e: Emote)
        requires
            old(self).wf(),
        ensures
            final(self).wf(),
            final(self).key_field() == old(self).key_field(),
            final(self).view() == old(self).view().insert(key_of(e@, old(self).key_field()), e@),
    {
        let k = match self.key {
            KeyField::Id => e.id.clone(),
            KeyField::Name => e.name.clone(),
        };
        let ghost prev = *self;
        match self.find(&k) {
            Some(i) => {
                self.entries.set(i, e);
                proof {
                    assert forall|a: int, b: int|
                        0 <= a < b < self.entries@.len() implies key_of(
                            self.entries@[a]@,
                            self.key,
                        ) != key_of(self.entries@[b]@, self.key) by {
                        if a != i as int && b != i as int {
                            assert(key_of(prev.entries@[a]@, self.key) != key_of(
                                prev.entries@[b]@,
                                self.key,
                            ));
                        }
                    }
                    assert forall|k2: Seq<char>|
                        #[trigger] self.view().contains_key(k2) == prev.view().insert(
                            k@,
                            e@,
                        ).contains_key(k2) by {
                        if self.has_key(k2) {
                            let j = choose|j: int|
                                0 <= j < self.entries@.len() && key_of(self.entries@[j]@, self.key)
                                    == k2;
                            if j != i as int {
                                assert(self.entries@[j] == prev.entries@[j]);
                                assert(prev.has_key(k2));
                            }
                        }
                        if prev.has_key(k2) {
                            let j = choose|j: int|
                                0 <= j < prev.entries@.len() && key_of(prev.entries@[j]@, self.key)
                                    == k2;
                            if j != i as int {
                                assert(self.entries@[j] == prev.entries@[j]);
                                assert(self.has_key(k2));
                            }
                        }
                        if k2 == k@ {
                            assert(key_of(self.entries@[i as int]@, self.key) == k2);
                        }
                    }
                    assert forall|k2: Seq<char>| #[trigger]
                        self.view().contains_key(k2) implies self.view()[k2] == prev.view().insert(
                            k@,
                            e@,
                        )[k2] by {
                        let j = choose|j: int|
                            0 <= j < self.entries@.len() && key_of(self.entries@[j]@, self.key)
                                == k2;
                        self.lemma_at(j);
                        if j != i as int {
                            prev.lemma_at(j);
                        }
                    }
                    assert(self.view() =~= prev.view().insert(k@, e@));
                }
            },
            None => {
                self.entries.push(e);
                proof {
                    let n = prev.entries@.len() as int;
                    assert forall|k2: Seq<char>|
                        #[trigger] self.view().contains_key(k2) == prev.view().insert(
                            k@,
                            e@,
                        ).contains_key(k2) by {
                        if self.has_key(k2) {
                            let j = choose|j: int|
                                0 <= j < self.entries@.len() && key_of(self.entries@[j]@, self.key)
                                    == k2;
                            if j != n {
                                assert(self.entries@[j] == prev.entries@[j]);
                                assert(prev.has_key(k2));
                            }
                        }
                        if prev.has_key(k2) {
                            let j = choose|j: int|
                                0 <= j < prev.entries@.len() && key_of(prev.entries@[j]@, self.key)
                                    == k2;
                            assert(key_of(self.entries@[j]@, self.key) == k2);
                        }
                        if k2 == k@ {
                            assert(key_of(self.entries@[n]@, self.key) == k2);
                        }
                    }
                    assert forall|a: int| 0 <= a < n implies key_of(
                        self.entries@[a]@,
                        self.key,
                    ) != k@ by {
                        if key_of(self.entries@[a]@, self.key) == k@ {
                            assert(prev.has_key(k@));
                        }
                    }
                    assert forall|k2: Seq<char>| #[trigger]
                        self.view().contains_key(k2) implies self.view()[k2] == prev.view().insert(
                            k@,
                            e@,
                        )[k2] by {
                        let j = choose|j: int|
                            0 <= j < self.entries@.len() && key_of(self.entries@[j]@, self.key)
                                == k2;
                        self.lemma_at(j);
                        if j != n {
                            prev.lemma_at(j);
                        }
                    }
                    assert(self.view() =~= prev.view().insert(k@, e@));
                }
            },
        }
    }

    /// Stores `e` under its key unless a record is already held there.
    pub fn insert_if_absent(&mut self, e: Emote)
        requires
            old(self).wf(),
        ensures
            final(self).wf(),
            final(self).key_field() == old(self).key_field(),
            final(self).view() == (if old(self).view().contains_key(key_of(e@, old(self).key_field())) {
                old(self).view()
            } else {
                old(self).view().insert(key_of(e@, old(self).key_field()), e@)
            }),
    {
        let k = match self.key {
            KeyField::Id => e.id.clone(),
            KeyField::Name => e.name.clone(),
        };
        if !self.contains(&k) {
            self.insert(e);
        }
    }

    /// Stores each record in order, a later one replacing an earlier one with the same key.
    pub fn insert_all(&mut self, es: Vec<Emote>)
        requires
            old(self).wf(),
        ensures
            final(self).wf(),
            final(self).key_field() == old(self).key_field(),
            final(self).view() == overwrite(old(self).view(), views(es@), old(self).key_field()),
    {
        let ghost start = self.view();
        let ghost all = views(es@);
        let mut rest = es;
        let total = rest.len();
        let mut n: usize = 0;
        while rest.len() > 0
            invariant
                self.wf(),
                self.key_field() == old(self).key_field(),
                total == all.len(),
                n + rest@.len() == total,
                forall|j: int| 0 <= j < rest@.len() ==> #[trigger] rest@[j]@ == all[n + j],
                self.view() == overwrite(start, all.subrange(0, n as int), self.key_field()),
            decreases rest@.len(),
        {
            let ghost before = rest@;
            let e = rest.remove(0);
            proof {
                assert(e@ == before[0]@);
                assert(all.subrange(0, n + 1).drop_last() =~= all.subrange(0, n as int));
                assert forall|j: int| 0 <= j < rest@.len() implies #[trigger] rest@[j]@ == all[n + 1 + j] by {
                    assert(rest@[j] == before[j + 1]);
                }
            }
            self.insert(e);
            n = n + 1;
        }
        assert(all.subrange(0, n as int) =~= all);
    }

    /// Stores each record in order unless its key is already held.
    pub fn insert_all_if_absent(&mut self, es: Vec<Emote>)
        requires
            old(self).wf(),
        ensures
            final(self).wf(),
            final(self).key_field() == old(self).key_field(),
            final(self).view() == keep_first(old(self).view(), views(es@), old(self).key_field()),
    {
        let ghost start = self.view();
        let ghost all = views(es@);
        let mut rest = es;
        let total = rest.len();
        let mut n: usize = 0;
        while rest.len() > 0
            invariant
                self.wf(),
                self.key_field() == old(self).key_field(),
                total == all.len(),
                n + rest@.len() == total,
                forall|j: int| 0 <= j < rest@.len() ==> #[trigger] rest@[j]@ == all[n + j],
                self.view() == keep_first(start, all.subrange(0, n as int), self.key_field()),
            decreases rest@.len(),
        {
            let ghost before = rest@;
            let e = rest.remove(0);
            proof {
                assert(e@ == before[0]@);
                assert(all.subrange(0, n + 1).drop_last() =~= all.subrange(0, n as int));
                assert forall|j: int| 0 <= j < rest@.len() implies #[trigger] rest@[j]@ == all[n + 1 + j] by {
                    assert(rest@[j] == before[j + 1]);
                }
            }
            self.insert_if_absent(e);
            n = n + 1;
        }
        assert(all.subrange(0, n as int) =~= all);
    }

    /// The number of records held: one per key.
    pub fn len(&self) -> (r: usize)
        requires
            self.wf(),
        ensures
            r == self.records().len(),
            r == self.view().len(),
    {
        proof { self.lemma_len(); }
        self.entries.len()
    }

    /// The records held, in the table's order.
    pub fn entries(&self) -> (r: &Vec<Emote>)
        ensures
            views(r@) == self.records(),
    {
        &self.entries
    }

    /// The records held, in the table's order, taken out of the table.
    pub fn into_entries(self) -> (r: Vec<Emote>)
        ensures
            views(r@) == self.records(),
    {
        self.entries
    }
}

} // verus!
