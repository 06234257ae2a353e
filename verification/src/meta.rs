//! The metadata store: values attached to a product under string keys.

use vstd::prelude::*;
use crate::text::str_eq;

verus! {

/// One stored value: the product it belongs to, its key and the value.
pub struct MetaEntry {
    pub product_id: i32,
    pub meta_key: String,
    pub meta_value: String,
}

/// A store of metadata entries that holds at most one entry for a product and
/// a key. It stands for the map from (product, key) to the value stored.
pub struct MetaStore {
    entries: Vec<MetaEntry>,
}

impl MetaStore {
    spec fn holds_at(self, i: int, product_id: int, key: Seq<char>) -> bool {
        &&& 0 <= i < self.entries.len()
        &&& self.entries[i].product_id == product_id
        &&& self.entries[i].meta_key@ == key
    }

    /// Whether the store holds at most one entry for each product and key.
    /// Every store that this module hands out is well formed, and every
    /// operation keeps it so.
    pub closed spec fn wf(self) -> bool {
        forall|i: int, j: int, product_id: int, key: Seq<char>|
            #[trigger] self.holds_at(i, product_id, key) && #[trigger] self.holds_at(
                j,
                product_id,
                key,
            ) ==> i == j
    }

    /// The map from (product, key) to the value stored for them.
    pub closed spec fn view(self) -> Map<(int, Seq<char>), Seq<char>> {
        Map::new(
            |k: (int, Seq<char>)| self.has(k.0, k.1),
            |k: (int, Seq<char>)| self.stored(k.0, k.1),
        )
    }

    spec fn has(self, product_id: int, key: Seq<char>) -> bool {
        exists|i: int| self.holds_at(i, product_id, key)
    }

    spec fn stored(self, product_id: int, key: Seq<char>) -> Seq<char> {
        self.entries[choose|i: int| self.holds_at(i, product_id, key)].meta_value@
    }

    proof fn lemma_present(self, i: int, product_id: int, key: Seq<char>)
        requires
            self.wf(),
            self.holds_at(i, product_id, key),
        ensures
            self@.contains_key((product_id, key)),
            self@[(product_id, key)] == self.entries[i].meta_value@,
    {
        let c = choose|j: int| self.holds_at(j, product_id, key);
        assert(self.holds_at(c, product_id, key));
        assert(self.has(product_id, key));
    }

    proof fn lemma_witness(self, product_id: int, key: Seq<char>) -> (i: int)
        requires
            self@.contains_key((product_id, key)),
        ensures
            self.holds_at(i, product_id, key),
            self@[(product_id, key)] == self.entries[i].meta_value@,
    {
        assert(self.has(product_id, key));
        choose|j: int| self.holds_at(j, product_id, key)
    }

    /// A store without entries.
    pub fn new() -> (s: Self)
        ensures
            s.wf(),
            s@ == Map::<(int, Seq<char>), Seq<char>>::empty(),
    {
        let s = MetaStore { entries: Vec::new() };
        assert(s@ =~= Map::<(int, Seq<char>), Seq<char>>::empty());
        s
    }

    fn find(&self, product_id: i32, key: &str) -> (r: Option<usize>)
        ensures
            match r {
                Some(i) => self.holds_at(i as int, product_id as int, key@),
                None => forall|i: int| !self.holds_at(i, product_id as int, key@),
            },
    {
        let mut i: usize = 0;
        while i < self.entries.len()
            invariant
                i <= self.entries.len(),
                forall|j: int| 0 <= j < i ==> !self.holds_at(j, product_id as int, key@),
            decreases self.entries.len() - i,
        {
            if self.entries[i].product_id == product_id && str_eq(
                self.entries[i].meta_key.as_str(),
                key,
            ) {
                return Some(i);
            }
            i += 1;
        }
        None
    }

    /// The value stored for `product_id` under `key`, if there is one.
    pub fn get(&self, product_id: i32, key: &str) -> (r: Option<&String>)
        requires
            self.wf(),
        ensures
            r is Some <==> self@.contains_key((product_id as int, key@)),
            r is Some ==> r->0@ == self@[(product_id as int, key@)],
    {
        match self.find(product_id, key) {
            Some(i) => {
                proof {
                    self.lemma_present(i as int, product_id as int, key@);
                }
                Some(&self.entries[i].meta_value)
            },
            None => None,
        }
    }

    /// The entries of the product `product_id`: one for each key under which
    /// the store holds a value for it, with that value.
    pub fn entries_of(&self, product_id: i32) -> (r: Vec<MetaEntry>)
        requires
            self.wf(),
        ensures
            forall|i: int|
                0 <= i < r@.len() ==> {
                    let entry = #[trigger] r@[i];
                    &&& entry.product_id == product_id
                    &&& self@.contains_key((product_id as int, entry.meta_key@))
                    &&& self@[(product_id as int, entry.meta_key@)] == entry.meta_value@
                },
            forall|i: int, j: int|
                0 <= i < j < r@.len() ==> (#[trigger] r@[i]).meta_key@ != (
                #[trigger] r@[j]).meta_key@,
            forall|key: Seq<char>| #[trigger]
                self@.contains_key((product_id as int, key)) ==> exists|i: int|
                    0 <= i < r@.len() && (#[trigger] r@[i]).meta_key@ == key,
    {
        let mut out: Vec<MetaEntry> = Vec::new();
        let ghost mut at: Seq<int> = Seq::empty();
        let mut i: usize = 0;
        while i < self.entries.len()
            invariant
                i <= self.entries.len(),
                self.wf(),
                at.len() == out@.len(),
                forall|j: int|
                    0 <= j < at.len() ==> {
                        let k = #[trigger] at[j];
                        &&& 0 <= k < i
                        &&& out@[j].product_id == product_id
                        &&& out@[j].meta_key@ == self.entries[k].meta_key@
                        &&& out@[j].meta_value@ == self.entries[k].meta_value@
                        &&& self.entries[k].product_id == product_id
                    },
                forall|j: int, l: int|
                    0 <= j < l < at.len() ==> #[trigger] at[j] < #[trigger] at[l],
                forall|k: int|
                    0 <= k < i && (#[trigger] self.entries[k]).product_id == product_id
                        ==> exists|j: int| 0 <= j < at.len() && #[trigger] at[j] == k,
            decreases self.entries.len() - i,
        {
            if self.entries[i].product_id == product_id {
                let entry = MetaEntry {
                    product_id,
                    meta_key: self.entries[i].meta_key.clone(),
                    meta_value: self.entries[i].meta_value.clone(),
                };
                let ghost before = at;
                out.push(entry);
                proof {
                    at = before.push(i as int);
                    assert forall|k: int|
                        0 <= k < i + 1 && (#[trigger] self.entries[k]).product_id
                            == product_id implies exists|j: int|
                        0 <= j < at.len() && #[trigger] at[j] == k by {
                        if k < i {
                            let j = choose|j: int|
                                0 <= j < before.len() && #[trigger] before[j] == k;
                            assert(at[j] == k);
                        } else {
                            assert(at[before.len() as int] == k);
                        }
                    }
                }
            }
            i += 1;
        }
        proof {
            assert forall|j: int| 0 <= j < out@.len() implies {
                let entry = #[trigger] out@[j];
                &&& entry.product_id == product_id
                &&& self@.contains_key((product_id as int, entry.meta_key@))
                &&& self@[(product_id as int, entry.meta_key@)] == entry.meta_value@
            } by {
                let k = at[j];
                assert(self.holds_at(k, product_id as int, out@[j].meta_key@));
                self.lemma_present(k, product_id as int, out@[j].meta_key@);
            }
            assert forall|j: int, l: int| 0 <= j < l < out@.len() implies (
            #[trigger] out@[j]).meta_key@ != (#[trigger] out@[l]).meta_key@ by {
                let a = at[j];
                let b = at[l];
                if out@[j].meta_key@ == out@[l].meta_key@ {
                    assert(self.holds_at(a, product_id as int, out@[j].meta_key@));
                    assert(self.holds_at(b, product_id as int, out@[j].meta_key@));
                }
            }
            assert forall|key: Seq<char>| #[trigger]
                self@.contains_key((product_id as int, key)) implies exists|j: int|
                0 <= j < out@.len() && (#[trigger] out@[j]).meta_key@ == key by {
                let k = self.lemma_witness(product_id as int, key);
                let j = choose|j: int| 0 <= j < at.len() && #[trigger] at[j] == k;
                assert(out@[j].meta_key@ == key);
            }
        }
        out
    }

    /// Stores `value` for `product_id` under `key`: an entry that is there is
    /// updated in place, else one is added.
    pub fn upsert(&mut self, product_id: i32, key: &str, value: String)
        requires
            old(self).wf(),
        ensures
            final(self).wf(),
            final(self)@ == old(self)@.insert((product_id as int, key@), value@),
    {
        let ghost before = *self;
        let ghost target = (product_id as int, key@);
        let found = self.find(product_id, key);
        let entry = MetaEntry { product_id, meta_key: key.to_string(), meta_value: value };
        let ghost at: int = match found {
            Some(i) => i as int,
            None => before.entries.len() as int,
        };
        match found {
            Some(i) => {
                self.entries.set(i, entry);
            },
            None => {
                self.entries.push(entry);
            },
        }
        proof {
            let after = *self;
            assert(after.holds_at(at, target.0, target.1));
            assert forall|j: int, p: int, k: Seq<char>| j != at implies after.holds_at(j, p, k)
                == before.holds_at(j, p, k) by {}
            assert forall|j: int, p: int, k: Seq<char>| after.holds_at(j, p, k) && (p, k)
                != target implies before.holds_at(j, p, k) by {}
            assert forall|p: int, k: Seq<char>| after.holds_at(at, p, k) implies (p, k)
                == target by {}
            assert(after.wf()) by {
                assert forall|i: int, j: int, p: int, k: Seq<char>| #[trigger]
                    after.holds_at(i, p, k) && #[trigger] after.holds_at(j, p, k) implies i
                    == j by {
                    if (p, k) == target {
                        if i != at {
                            assert(before.holds_at(i, p, k));
                        }
                        if j != at {
                            assert(before.holds_at(j, p, k));
                        }
                    } else {
                        assert(before.holds_at(i, p, k));
                        assert(before.holds_at(j, p, k));
                    }
                }
            }
            let wanted = before@.insert(target, value@);
            assert forall|k: (int, Seq<char>)| after@.contains_key(k) implies wanted.contains_key(
                k,
            ) && wanted[k] == after@[k] by {
                let j = after.lemma_witness(k.0, k.1);
                if k == target {
                    after.lemma_present(at, k.0, k.1);
                } else {
                    assert(before.holds_at(j, k.0, k.1));
                    before.lemma_present(j, k.0, k.1);
                }
            }
            assert forall|k: (int, Seq<char>)| wanted.contains_key(k) implies after@.contains_key(
                k,
            ) by {
                if k == target {
                    after.lemma_present(at, k.0, k.1);
                } else {
                    let j = before.lemma_witness(k.0, k.1);
                    assert(j != at);
                    assert(after.holds_at(j, k.0, k.1));
                    after.lemma_present(j, k.0, k.1);
                }
            }
            assert(after@ =~= wanted);
        }
    }

    /// Removes what is stored for `product_id` under `key`, if anything.
    pub fn delete(&mut self, product_id: i32, key: &str)
        requires
            old(self).wf(),
        ensures
            final(self).wf(),
            final(self)@ == old(self)@.remove((product_id as int, key@)),
    {
        let ghost before = *self;
        let ghost target = (product_id as int, key@);
        match self.find(product_id, key) {
            Some(i) => {
                self.entries.remove(i);
                proof {
                    let after = *self;
                    assert forall|j: int, p: int, k: Seq<char>| after.holds_at(j, p, k) == (if j
                        < i {
                        before.holds_at(j, p, k)
                    } else {
                        before.holds_at(j + 1, p, k)
                    }) by {}
                    assert(after.wf()) by {
                        assert forall|a: int, b: int, p: int, k: Seq<char>| #[trigger]
                            after.holds_at(a, p, k) && #[trigger] after.holds_at(b, p, k) implies a
                            == b by {
                            let a0 = if a < i { a } else { a + 1 };
                            let b0 = if b < i { b } else { b + 1 };
                            assert(before.holds_at(a0, p, k));
                            assert(before.holds_at(b0, p, k));
                        }
                    }
                    let wanted = before@.remove(target);
                    assert forall|k: (int, Seq<char>)| after@.contains_key(k) implies
                        wanted.contains_key(k) && wanted[k] == after@[k] by {
                        let j = after.lemma_witness(k.0, k.1);
                        let j0 = if j < i { j } else { j + 1 };
                        assert(before.holds_at(j0, k.0, k.1));
                        before.lemma_present(j0, k.0, k.1);
                        if k == target {
                            assert(before.holds_at(i as int, k.0, k.1));
                        }
                    }
                    assert forall|k: (int, Seq<char>)| wanted.contains_key(k) implies
                        after@.contains_key(k) by {
                        let j = before.lemma_witness(k.0, k.1);
                        assert(j != i);
                        let j1 = if j < i { j } else { j - 1 };
                        assert(after.holds_at(j1, k.0, k.1));
                        after.lemma_present(j1, k.0, k.1);
                    }
                    assert(after@ =~= wanted);
                }
            },
            None => {
                proof {
                    if before@.contains_key(target) {
                        let j = before.lemma_witness(target.0, target.1);
                    }
                    assert(self@ =~= before@.remove(target));
                }
            },
        }
    }
}

/// What a write does, over plain text: the mathematical form of `MetaWrite`.
pub enum Write {
    Upsert { key: Seq<char>, value: Seq<char> },
    Delete { key: Seq<char> },
}

/// One write to the metadata of a product.
pub enum MetaWrite {
    /// Store `value` under `key`, whether or not an entry is there.
    Upsert { key: String, value: String },
    /// Remove the entry under `key`, if there is one.
    Delete { key: String },
}

impl View for MetaWrite {
    type V = Write;

    open spec fn view(&self) -> Write {
        match self {
            MetaWrite::Upsert { key, value } => Write::Upsert { key: key@, value: value@ },
            MetaWrite::Delete { key } => Write::Delete { key: key@ },
        }
    }
}

/// The views of a sequence of writes.
pub open spec fn write_views(writes: Seq<MetaWrite>) -> Seq<Write> {
    Seq::new(writes.len(), |i: int| writes[i]@)
}

/// The store after one write to the metadata of `product_id`.
pub open spec fn apply_write(
    store: Map<(int, Seq<char>), Seq<char>>,
    product_id: int,
    write: Write,
) -> Map<(int, Seq<char>), Seq<char>> {
    match write {
        Write::Upsert { key, value } => store.insert((product_id, key), value),
        Write::Delete { key } => store.remove((product_id, key)),
    }
}

/// The store after the writes of `writes`, first to last.
pub open spec fn apply_writes(
    store: Map<(int, Seq<char>), Seq<char>>,
    product_id: int,
    writes: Seq<Write>,
) -> Map<(int, Seq<char>), Seq<char>>
    decreases writes.len(),
{
    if writes.len() == 0 {
        store
    } else {
        apply_write(apply_writes(store, product_id, writes.drop_last()), product_id, writes.last())
    }
}

/// Performing `first + then` is performing `first` and then `then`.
pub proof fn lemma_apply_writes_concat(
    store: Map<(int, Seq<char>), Seq<char>>,
    product_id: int,
    first: Seq<Write>,
    then: Seq<Write>,
)
    ensures
        apply_writes(store, product_id, first + then) == apply_writes(
            apply_writes(store, product_id, first),
            product_id,
            then,
        ),
    decreases then.len(),
{
    if then.len() == 0 {
        assert(first + then == first);
    } else {
        assert((first + then).drop_last() == first + then.drop_last());
        assert((first + then).last() == then.last());
        lemma_apply_writes_concat(store, product_id, first, then.drop_last());
    }
}

/// The key that a write is about.
pub open spec fn write_key(write: Write) -> Seq<char> {
    match write {
        Write::Upsert { key, value } => key,
        Write::Delete { key } => key,
    }
}

/// Writes leave alone what is stored for another product, and what is stored
/// under a key that none of them is about.
pub proof fn lemma_apply_writes_untouched(
    store: Map<(int, Seq<char>), Seq<char>>,
    product_id: int,
    writes: Seq<Write>,
    other: (int, Seq<char>),
)
    requires
        other.0 != product_id || forall|i: int|
            0 <= i < writes.len() ==> write_key(#[trigger] writes[i]) != other.1,
    ensures
        apply_writes(store, product_id, writes).contains_key(other) == store.contains_key(other),
        store.contains_key(other) ==> apply_writes(store, product_id, writes)[other]
            == store[other],
    decreases writes.len(),
{
    if writes.len() > 0 {
        let head = writes.drop_last();
        assert forall|i: int| 0 <= i < head.len() implies (other.0 != product_id || write_key(
            #[trigger] head[i],
        ) != other.1) by {
            assert(head[i] == writes[i]);
        }
        lemma_apply_writes_untouched(store, product_id, head, other);
        assert(other.0 != product_id || write_key(writes[writes.len() - 1]) != other.1);
    }
}

/// What the database is asked to do for one write, once it is known whether a
/// row for the key is there.
pub enum MetaAction {
    /// Add a row with this key and value.
    Insert { key: String, value: String },
    /// Set the value of the row `row`.
    Update { row: i32, value: String },
    /// Delete the row `row`.
    Remove { row: i32 },
    /// Leave the table as it is.
    Nothing,
}

impl MetaWrite {
    /// The key that the write is about.
    pub fn key(&self) -> (k: &String)
        ensures
            k@ == match self@ {
                Write::Upsert { key, value } => key,
                Write::Delete { key } => key,
            },
    {
        match self {
            MetaWrite::Upsert { key, value } => key,
            MetaWrite::Delete { key } => key,
        }
    }

    /// Turns the write into an action on the table. `found` is the row that
    /// holds the key now, if there is one: an upsert updates that row or
    /// inserts a new one, a delete removes that row or does nothing.
    pub fn resolve(self, found: Option<i32>) -> (action: MetaAction)
        ensures
            match (self, found) {
                (MetaWrite::Upsert { key, value }, Some(row)) => action == (MetaAction::Update {
                    row,
                    value,
                }),
                (MetaWrite::Upsert { key, value }, None) => action == (MetaAction::Insert {
                    key,
                    value,
                }),
                (MetaWrite::Delete { key }, Some(row)) => action == (MetaAction::Remove { row }),
                (MetaWrite::Delete { key }, None) => action == MetaAction::Nothing,
            },
    {
        match self {
            MetaWrite::Upsert { key, value } => match found {
                Some(row) => MetaAction::Update { row, value },
                None => MetaAction::Insert { key, value },
            },
            MetaWrite::Delete { key } => match found {
                Some(row) => MetaAction::Remove { row },
                None => MetaAction::Nothing,
            },
        }
    }
}

impl MetaStore {
    /// Performs one write on the metadata of `product_id`.
    pub fn apply(&mut self, product_id: i32, write: &MetaWrite)
        requires
            old(self).wf(),
        ensures
            final(self).wf(),
            final(self)@ == apply_write(old(self)@, product_id as int, write@),
    {
        match write {
            MetaWrite::Upsert { key, value } => {
                self.upsert(product_id, key.as_str(), value.clone());
            },
            MetaWrite::Delete { key } => {
                self.delete(product_id, key.as_str());
            },
        }
    }

    /// Performs the writes of `writes` on the metadata of `product_id`, first
    /// to last.
    pub fn apply_all(&mut self, product_id: i32, writes: &Vec<MetaWrite>)
        requires
            old(self).wf(),
        ensures
            final(self).wf(),
            final(self)@ == apply_writes(old(self)@, product_id as int, write_views(writes@)),
    {
        let ghost all = write_views(writes@);
        let mut i: usize = 0;
        while i < writes.len()
            invariant
                i <= writes.len(),
                self.wf(),
                all == write_views(writes@),
                self@ == apply_writes(old(self)@, product_id as int, all.take(i as int)),
            decreases writes.len() - i,
        {
            assert(all.take(i + 1).drop_last() == all.take(i as int));
            self.apply(product_id, &writes[i]);
            i += 1;
        }
        assert(all.take(i as int) == all);
    }
}

} // verus!
