use vstd::prelude::*;

verus! {

/// Identifier of an entity.
pub type Eid = usize;

/// A table from integer keys to values, at most one value per key.
pub trait GenericStorage<T>: Sized {
    /// The well-formedness of the table.
    spec fn wf(&self) -> bool;

    /// What the table holds.
    spec fn contents(&self) -> Map<usize, T>;

    /// An empty table.
    fn new() -> (s: Self)
        ensures
            s.wf(),
            s.contents() == Map::<usize, T>::empty(),
    ;

    /// Stores `value` under `key`, handing back the value that was stored there.
    fn push(&mut self, key: usize, value: T) -> (prev: Option<T>)
        requires
            old(self).wf(),
        ensures
            final(self).wf(),
            final(self).contents() == old(self).contents().insert(key, value),
            prev == (if old(self).contents().contains_key(key) {
                Some(old(self).contents()[key])
            } else {
                None
            }),
    ;

    /// The value stored under `index`, if any.
    fn get(&self, index: &usize) -> (r: Option<&T>)
        requires
            self.wf(),
        ensures
            match r {
                Some(v) => self.contents().contains_key(*index) && *v == self.contents()[*index],
                None => !self.contents().contains_key(*index),
            },
    ;

    /// The number of keys in the table.
    fn len(&self) -> (n: usize)
        requires
            self.wf(),
        ensures
            n == self.contents().dom().len(),
    ;

    /// Takes the value stored under `index` out of the table, if any.
    fn remove(&mut self, index: &usize) -> (r: Option<T>)
        requires
            old(self).wf(),
        ensures
            final(self).wf(),
            final(self).contents() == old(self).contents().remove(*index),
            r == (if old(self).contents().contains_key(*index) {
                Some(old(self).contents()[*index])
            } else {
                None
            }),
    ;
}

/// The position of `key` in a sequence of distinct keys.
spec fn position(keys: Seq<usize>, key: usize) -> int {
    choose|i: int| 0 <= i < keys.len() && keys[i] == key
}

/// The map that parallel sequences of keys and values describe.
spec fn map_of<T>(keys: Seq<usize>, vals: Seq<T>) -> Map<usize, T> {
    Map::new(|k: usize| keys.contains(k), |k: usize| vals[position(keys, k)])
}

proof fn lemma_position(keys: Seq<usize>, key: usize, i: int)
    requires
        keys.no_duplicates(),
        0 <= i < keys.len(),
        keys[i] == key,
    ensures
        position(keys, key) == i,
{
    let j = position(keys, key);
    assert(0 <= j < keys.len() && keys[j] == key);
}

/// Looking a key up in the map gives the value at its position.
proof fn lemma_map_of_index<T>(keys: Seq<usize>, vals: Seq<T>, i: int)
    requires
        keys.no_duplicates(),
        keys.len() == vals.len(),
        0 <= i < keys.len(),
    ensures
        map_of(keys, vals).contains_key(keys[i]),
        map_of(keys, vals)[keys[i]] == vals[i],
{
    lemma_position(keys, keys[i], i);
}

proof fn lemma_map_of_push<T>(keys: Seq<usize>, vals: Seq<T>, key: usize, value: T)
    requires
        keys.no_duplicates(),
        keys.len() == vals.len(),
        !keys.contains(key),
    ensures
        keys.push(key).no_duplicates(),
        map_of(keys.push(key), vals.push(value)) == map_of(keys, vals).insert(key, value),
{
    let nk = keys.push(key);
    let nv = vals.push(value);
    assert(nk.no_duplicates()) by {
        assert forall|a: int, b: int| 0 <= a < nk.len() && 0 <= b < nk.len() && a != b implies nk[a]
            != nk[b] by {
            if a < keys.len() && b < keys.len() {
            } else if a < keys.len() {
                assert(keys.contains(nk[a]));
            } else {
                assert(keys.contains(nk[b]));
            }
        }
    }
    let m = map_of(nk, nv);
    let e = map_of(keys, vals).insert(key, value);
    assert forall|k: usize| #[trigger] m.contains_key(k) == e.contains_key(k) by {
        if keys.contains(k) {
            let i = choose|i: int| 0 <= i < keys.len() && keys[i] == k;
            assert(nk[i] == k);
        }
        if k == key {
            assert(nk[keys.len() as int] == k);
        }
        if nk.contains(k) {
            let i = choose|i: int| 0 <= i < nk.len() && nk[i] == k;
            if i < keys.len() {
                assert(keys[i] == k);
            }
        }
    }
    assert forall|k: usize| m.contains_key(k) implies #[trigger] m[k] == e[k] by {
        let i = choose|i: int| 0 <= i < nk.len() && nk[i] == k;
        lemma_map_of_index(nk, nv, i);
        if i < keys.len() {
            assert(keys[i] == k);
            lemma_map_of_index(keys, vals, i);
        }
    }
    assert(m =~= e);
}

proof fn lemma_map_of_update<T>(keys: Seq<usize>, vals: Seq<T>, i: int, value: T)
    requires
        keys.no_duplicates(),
        keys.len() == vals.len(),
        0 <= i < keys.len(),
    ensures
        map_of(keys, vals.update(i, value)) == map_of(keys, vals).insert(keys[i], value),
{
    let nv = vals.update(i, value);
    let m = map_of(keys, nv);
    let e = map_of(keys, vals).insert(keys[i], value);
    lemma_map_of_index(keys, vals, i);
    assert forall|k: usize| m.contains_key(k) implies #[trigger] m[k] == e[k] by {
        let j = choose|j: int| 0 <= j < keys.len() && keys[j] == k;
        lemma_map_of_index(keys, nv, j);
        lemma_map_of_index(keys, vals, j);
    }
    assert(m =~= e);
}

proof fn lemma_map_of_update_all<T>(keys: Seq<usize>, vals: Seq<T>, i: int)
    requires
        keys.no_duplicates(),
        keys.len() == vals.len(),
        0 <= i < keys.len(),
    ensures
        forall|value: T|
            #[trigger] map_of(keys, vals.update(i, value)) == map_of(keys, vals).insert(
                keys[i],
                value,
            ),
{
    assert forall|value: T|
        #[trigger] map_of(keys, vals.update(i, value)) == map_of(keys, vals).insert(
            keys[i],
            value,
        ) by {
        lemma_map_of_update(keys, vals, i, value);
    }
}

proof fn lemma_map_of_remove<T>(keys: Seq<usize>, vals: Seq<T>, i: int)
    requires
        keys.no_duplicates(),
        keys.len() == vals.len(),
        0 <= i < keys.len(),
    ensures
        keys.remove(i).no_duplicates(),
        map_of(keys.remove(i), vals.remove(i)) == map_of(keys, vals).remove(keys[i]),
{
    let nk = keys.remove(i);
    let nv = vals.remove(i);
    let key = keys[i];
    assert(nk.no_duplicates()) by {
        assert forall|a: int, b: int| 0 <= a < nk.len() && 0 <= b < nk.len() && a != b implies nk[a]
            != nk[b] by {
            let a0 = if a < i { a } else { a + 1 };
            let b0 = if b < i { b } else { b + 1 };
            assert(nk[a] == keys[a0] && nk[b] == keys[b0]);
        }
    }
    let m = map_of(nk, nv);
    let e = map_of(keys, vals).remove(key);
    assert forall|k: usize| #[trigger] m.contains_key(k) == e.contains_key(k) by {
        if nk.contains(k) {
            let j = choose|j: int| 0 <= j < nk.len() && nk[j] == k;
            let j0 = if j < i { j } else { j + 1 };
            assert(keys[j0] == k);
        }
        if keys.contains(k) && k != key {
            let j = choose|j: int| 0 <= j < keys.len() && keys[j] == k;
            if j < i {
                assert(nk[j] == k);
            } else {
                assert(nk[j - 1] == k);
            }
        }
    }
    assert forall|k: usize| m.contains_key(k) implies #[trigger] m[k] == e[k] by {
        let j = choose|j: int| 0 <= j < nk.len() && nk[j] == k;
        let j0 = if j < i { j } else { j + 1 };
        lemma_map_of_index(nk, nv, j);
        lemma_map_of_index(keys, vals, j0);
    }
    assert(m =~= e);
}

proof fn lemma_map_of_len<T>(keys: Seq<usize>, vals: Seq<T>)
    requires
        keys.no_duplicates(),
        keys.len() == vals.len(),
    ensures
        map_of(keys, vals).dom() == keys.to_set(),
        map_of(keys, vals).dom().len() == keys.len(),
{
    assert(map_of(keys, vals).dom() =~= keys.to_set());
    keys.unique_seq_to_set();
}

/// A table kept as parallel vectors of keys and values, in the order the
/// keys were first stored.
#[derive(Debug)]
pub struct MapStorage<T> {
    keys: Vec<usize>,
    vals: Vec<T>,
}

impl<T> View for MapStorage<T> {
    type V = Map<usize, T>;

    closed spec fn view(&self) -> Map<usize, T> {
        map_of(self.keys@, self.vals@)
    }
}

impl<T> MapStorage<T> {
    /// The keys in the order in which they are kept.
    pub closed spec fn key_seq(&self) -> Seq<usize> {
        self.keys@
    }

    /// The values, at the positions of their keys.
    pub closed spec fn value_seq(&self) -> Seq<T> {
        self.vals@
    }

    /// The table is well formed: one value for each key, no key twice.
    pub closed spec fn well_formed(&self) -> bool {
        &&& self.keys@.len() == self.vals@.len()
        &&& self.keys@.no_duplicates()
    }

    /// What a well-formed table holds follows from its keys and values.
    pub proof fn lemma_view(&self)
        requires
            self.well_formed(),
        ensures
            self.key_seq().len() == self.value_seq().len(),
            self.key_seq().no_duplicates(),
            self@.dom() == self.key_seq().to_set(),
            self@.dom().len() == self.key_seq().len(),
            forall|i: int|
                0 <= i < self.key_seq().len() ==> #[trigger] self@[self.key_seq()[i]]
                    == self.value_seq()[i],
    {
        lemma_map_of_len(self.keys@, self.vals@);
        assert forall|i: int| 0 <= i < self.key_seq().len() implies #[trigger] self@[self.key_seq()[i]]
            == self.value_seq()[i] by {
            lemma_map_of_index(self.keys@, self.vals@, i);
        }
    }

    /// A mutable reference to the value at position `i` of the table.
    pub fn value_at_mut(&mut self, i: usize) -> (r: &mut T)
        requires
            old(self).well_formed(),
            i < old(self).key_seq().len(),
        ensures
            *r == old(self).value_seq()[i as int],
            final(self).well_formed(),
            final(self).key_seq() == old(self).key_seq(),
            final(self).value_seq() == old(self).value_seq().update(i as int, *final(r)),
            final(self)@ == old(self)@.insert(old(self).key_seq()[i as int], *final(r)),
    {
        proof {
            lemma_map_of_update_all(self.keys@, self.vals@, i as int);
        }
        &mut self.vals[i]
    }

    /// The position of `key`, if the table holds it.
    fn find(&self, key: usize) -> (r: Option<usize>)
        requires
            self.well_formed(),
        ensures
            match r {
                Some(i) => i < self.keys@.len() && self.keys@[i as int] == key,
                None => !self.keys@.contains(key),
            },
    {
        let mut i: usize = 0;
        while i < self.keys.len()
            invariant
                0 <= i <= self.keys@.len(),
                forall|j: int| 0 <= j < i ==> self.keys@[j] != key,
            decreases self.keys@.len() - i,
        {
            if self.keys[i] == key {
                return Some(i);
            }
            i += 1;
        }
        None
    }

    /// A mutable reference to the value stored under `index`, if any.
    pub fn get_mut(&mut self, index: &usize) -> (r: Option<&mut T>)
        requires
            old(self).well_formed(),
        ensures
            final(self).well_formed(),
            final(self).key_seq() == old(self).key_seq(),
            match r {
                Some(v) => {
                    &&& old(self)@.contains_key(*index)
                    &&& *v == old(self)@[*index]
                    &&& final(self)@ == old(self)@.insert(*index, *final(v))
                },
                None => {
                    &&& !old(self)@.contains_key(*index)
                    &&& final(self)@ == old(self)@
                },
            },
    {
        proof {
            lemma_map_of_len(self.keys@, self.vals@);
        }
        match self.find(*index) {
            Some(i) => {
                proof {
                    lemma_map_of_index(self.keys@, self.vals@, i as int);
                }
                Some(self.value_at_mut(i))
            },
            None => None,
        }
    }
}

impl<T> GenericStorage<T> for MapStorage<T> {
    open spec fn wf(&self) -> bool {
        self.well_formed()
    }

    open spec fn contents(&self) -> Map<usize, T> {
        self@
    }

    fn new() -> (s: Self) {
        let s = MapStorage { keys: Vec::new(), vals: Vec::new() };
        assert(s@ =~= Map::<usize, T>::empty());
        s
    }

    /// A new key goes after the others.
    fn push(&mut self, key: usize, value: T) -> (prev: Option<T>)
        ensures
            final(self).key_seq() == (if old(self)@.contains_key(key) {
                old(self).key_seq()
            } else {
                old(self).key_seq().push(key)
            }),
    {
        proof {
            lemma_map_of_len(self.keys@, self.vals@);
        }
        match self.find(key) {
            Some(i) => {
                proof {
                    lemma_map_of_index(self.keys@, self.vals@, i as int);
                    lemma_map_of_update(self.keys@, self.vals@, i as int, value);
                }
                let mut v = value;
                std::mem::swap(&mut self.vals[i], &mut v);
                Some(v)
            },
            None => {
                proof {
                    lemma_map_of_push(self.keys@, self.vals@, key, value);
                }
                self.keys.push(key);
                self.vals.push(value);
                None
            },
        }
    }

    fn get(&self, index: &usize) -> (r: Option<&T>) {
        proof {
            lemma_map_of_len(self.keys@, self.vals@);
        }
        match self.find(*index) {
            Some(i) => {
                proof {
                    lemma_map_of_index(self.keys@, self.vals@, i as int);
                }
                Some(&self.vals[i])
            },
            None => None,
        }
    }

    fn len(&self) -> (n: usize) {
        proof {
            lemma_map_of_len(self.keys@, self.vals@);
        }
        self.keys.len()
    }

    /// The other keys keep their order.
    fn remove(&mut self, index: &usize) -> (r: Option<T>)
        ensures
            final(self).key_seq() == old(self).key_seq().remove_value(*index),
    {
        proof {
            lemma_map_of_len(self.keys@, self.vals@);
            self.keys@.index_of_first_ensures(*index);
        }
        match self.find(*index) {
            Some(i) => {
                proof {
                    lemma_map_of_index(self.keys@, self.vals@, i as int);
                    lemma_map_of_remove(self.keys@, self.vals@, i as int);
                }
                self.keys.remove(i);
                Some(self.vals.remove(i))
            },
            None => {
                assert(old(self)@.remove(*index) =~= old(self)@);
                None
            },
        }
    }
}

} // verus!
