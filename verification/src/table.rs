//! A small map from byte strings to values.

use vstd::prelude::*;

verus! {

/// Whether two byte strings hold the same bytes.
pub fn same_bytes(a: &Vec<u8>, b: &Vec<u8>) -> (same: bool)
    ensures
        same == (a@ == b@),
{
    if a.len() != b.len() {
        return false;
    }
    let mut i: usize = 0;
    while i < a.len()
        invariant
            i <= a.len(),
            a.len() == b.len(),
            forall|j: int| 0 <= j < i ==> a[j] == b[j],
        decreases a.len() - i,
    {
        if a[i] != b[i] {
            return false;
        }
        i = i + 1;
    }
    assert(a@ =~= b@);
    true
}

/// A copy of a byte string.
pub fn copy_bytes(bytes: &Vec<u8>) -> (copy: Vec<u8>)
    ensures
        copy@ == bytes@,
{
    let copy = bytes.clone();
    assert(copy@ =~= bytes@);
    copy
}

/// Values under byte string keys, one under each.
pub struct Table<V> {
    entries: Vec<(Vec<u8>, V)>,
}

/// The value under `key`.
spec fn lookup<V: View>(entries: Seq<(Vec<u8>, V)>, key: Seq<u8>) -> Option<V::V>
    decreases entries.len(),
{
    if entries.len() == 0 {
        None
    } else if entries[0].0@ == key {
        Some(entries[0].1@)
    } else {
        lookup(entries.drop_first(), key)
    }
}

/// `lookup` finds the entry at `i`, if none before it has the key.
proof fn lemma_lookup_at<V: View>(entries: Seq<(Vec<u8>, V)>, key: Seq<u8>, i: int)
    requires
        0 <= i < entries.len(),
        entries[i].0@ == key,
        forall|j: int| 0 <= j < i ==> entries[j].0@ != key,
    ensures
        lookup(entries, key) == Some(entries[i].1@),
    decreases entries.len(),
{
    if i > 0 {
        assert(entries[0].0@ != key);
        let rest = entries.drop_first();
        assert(forall|j: int| 0 <= j < i - 1 ==> rest[j] == entries[j + 1]);
        assert(forall|j: int| 0 <= j < i - 1 ==> rest[j].0@ != key);
        lemma_lookup_at(rest, key, i - 1);
    }
}

/// `lookup` finds nothing, if no entry has the key.
proof fn lemma_lookup_none<V: View>(entries: Seq<(Vec<u8>, V)>, key: Seq<u8>)
    requires
        forall|j: int| 0 <= j < entries.len() ==> entries[j].0@ != key,
    ensures
        lookup(entries, key) is None,
    decreases entries.len(),
{
    if entries.len() > 0 {
        assert(entries[0].0@ != key);
        let rest = entries.drop_first();
        assert(forall|j: int| 0 <= j < rest.len() ==> rest[j] == entries[j + 1]);
        assert(forall|j: int| 0 <= j < rest.len() ==> rest[j].0@ != key);
        lemma_lookup_none(rest, key);
    }
}

/// `lookup` of one key does not depend on an entry with another key.
proof fn lemma_lookup_skip<V: View>(
    left: Seq<(Vec<u8>, V)>,
    entry: (Vec<u8>, V),
    right: Seq<(Vec<u8>, V)>,
    key: Seq<u8>,
)
    requires
        entry.0@ != key,
    ensures
        lookup(left.push(entry) + right, key) == lookup(left + right, key),
    decreases left.len(),
{
    let with = left.push(entry) + right;
    let without = left + right;
    if left.len() == 0 {
        assert(with.drop_first() =~= right);
        assert(without =~= right);
    } else {
        assert(with[0] == left[0] && without[0] == left[0]);
        assert(with.drop_first() =~= left.drop_first().push(entry) + right);
        assert(without.drop_first() =~= left.drop_first() + right);
        lemma_lookup_skip(left.drop_first(), entry, right, key);
    }
}

impl<V: View> View for Table<V> {
    type V = Map<Seq<u8>, V::V>;

    closed spec fn view(&self) -> Map<Seq<u8>, V::V> {
        Map::new(
            |key: Seq<u8>| lookup(self.entries@, key) is Some,
            |key: Seq<u8>| lookup(self.entries@, key)->0,
        )
    }
}

/// No key stands in two entries.
spec fn distinct_keys<V>(entries: Seq<(Vec<u8>, V)>) -> bool {
    forall|i: int, j: int|
        0 <= i < j < entries.len() ==> (#[trigger] entries[i]).0@ != (#[trigger] entries[j]).0@
}

impl<V> Table<V> {
    #[verifier::type_invariant]
    spec fn well_formed(self) -> bool {
        distinct_keys(self.entries@)
    }
}

impl<V: View> Table<V> {
    /// A table without entries.
    pub fn new() -> (table: Table<V>)
        ensures
            table@ == Map::<Seq<u8>, V::V>::empty(),
    {
        let table = Table { entries: Vec::new() };
        assert(table@ =~= Map::<Seq<u8>, V::V>::empty());
        table
    }

    /// The position of the entry under `key`.
    fn position(&self, key: &Vec<u8>) -> (at: Option<usize>)
        ensures
            at matches Some(i) ==> {
                &&& i < self.entries@.len()
                &&& self.entries@[i as int].0@ == key@
                &&& self@.contains_key(key@)
                &&& self@[key@] == self.entries@[i as int].1@
                &&& forall|j: int| 0 <= j < i ==> self.entries@[j].0@ != key@
            },
            at is None ==> {
                &&& !self@.contains_key(key@)
                &&& forall|j: int| 0 <= j < self.entries@.len() ==> self.entries@[j].0@ != key@
            },
    {
        let mut i: usize = 0;
        while i < self.entries.len()
            invariant
                i <= self.entries@.len(),
                forall|j: int| 0 <= j < i ==> self.entries@[j].0@ != key@,
            decreases self.entries@.len() - i,
        {
            if same_bytes(&self.entries[i].0, key) {
                proof {
                    lemma_lookup_at(self.entries@, key@, i as int);
                }
                return Some(i);
            }
            i = i + 1;
        }
        proof {
            lemma_lookup_none(self.entries@, key@);
        }
        None
    }

    /// Whether a value stands under `key`.
    pub fn has(&self, key: &Vec<u8>) -> (found: bool)
        ensures
            found == self@.contains_key(key@),
    {
        self.position(key).is_some()
    }

    /// The value under `key`.
    pub fn get(&self, key: &Vec<u8>) -> (value: Option<&V>)
        ensures
            value matches Some(v) ==> self@.contains_key(key@) && self@[key@] == v@,
            value is None ==> !self@.contains_key(key@),
    {
        match self.position(key) {
            Some(i) => Some(&self.entries[i].1),
            None => None,
        }
    }

    /// Puts `value` under `key`, in place of what stood there.
    pub fn set(&mut self, key: Vec<u8>, value: V)
        ensures
            final(self)@ == old(self)@.insert(key@, value@),
    {
        proof {
            use_type_invariant(&*self);
        }
        let at = self.position(&key);
        let ghost before = self.entries@;
        let ghost found = key@;
        let mut entries: Vec<(Vec<u8>, V)> = Vec::new();
        std::mem::swap(&mut self.entries, &mut entries);
        match at {
            Some(i) => {
                entries.set(i, (key, value));
                proof {
                    let entry = entries@[i as int];
                    let left = before.take(i as int);
                    let right = before.skip(i + 1);
                    assert(before =~= left.push(before[i as int]) + right);
                    assert(entries@ =~= left.push(entry) + right);
                    assert forall|k: Seq<u8>| k != found implies lookup(entries@, k) == lookup(
                        before,
                        k,
                    ) by {
                        lemma_lookup_skip(left, entry, right, k);
                        lemma_lookup_skip(left, before[i as int], right, k);
                    }
                    lemma_lookup_at(entries@, found, i as int);
                }
            },
            None => {
                entries.push((key, value));
                proof {
                    let entry = entries@.last();
                    let right = Seq::<(Vec<u8>, V)>::empty();
                    assert(before + right =~= before);
                    assert(entries@ =~= before.push(entry) + right);
                    assert forall|k: Seq<u8>| k != found implies lookup(entries@, k) == lookup(
                        before,
                        k,
                    ) by {
                        lemma_lookup_skip(before, entry, right, k);
                    }
                    lemma_lookup_at(entries@, found, before.len() as int);
                }
            },
        }
        self.entries = entries;
        assert(self@ =~= old(self)@.insert(found, value@));
    }

    /// Takes the value under `key` out.
    pub fn take(&mut self, key: &Vec<u8>) -> (value: Option<V>)
        ensures
            value matches Some(v) ==> old(self)@.contains_key(key@) && old(self)@[key@] == v@,
            value is None ==> !old(self)@.contains_key(key@),
            final(self)@ == old(self)@.remove(key@),
    {
        proof {
            use_type_invariant(&*self);
        }
        let at = self.position(key);
        let ghost before = self.entries@;
        let mut entries: Vec<(Vec<u8>, V)> = Vec::new();
        std::mem::swap(&mut self.entries, &mut entries);
        let value = match at {
            Some(i) => {
                let (_, value) = entries.remove(i);
                proof {
                    let entry = before[i as int];
                    let left = before.take(i as int);
                    let right = before.skip(i + 1);
                    assert(before =~= left.push(entry) + right);
                    assert(entries@ =~= left + right);
                    assert forall|k: Seq<u8>| k != key@ implies lookup(entries@, k) == lookup(
                        before,
                        k,
                    ) by {
                        lemma_lookup_skip(left, entry, right, k);
                    }
                    lemma_lookup_none(entries@, key@);
                }
                Some(value)
            },
            None => None,
        };
        self.entries = entries;
        assert(self@ =~= old(self)@.remove(key@));
        value
    }
}

/// What is put under a key is found there, and what stands under any other key stays.
pub proof fn law_set_is_found<V: View>(
    table: &mut Table<V>,
    key: Vec<u8>,
    value: V,
    other: Vec<u8>,
    before: Option<&V>,
    after: Option<&V>,
    found: bool,
)
    requires
        call_ensures(Table::<V>::get, (&*old(table), &other), before),
        call_ensures(Table::<V>::set, (table, key, value), ()),
        call_ensures(Table::<V>::get, (&*final(table), &other), after),
        call_ensures(Table::<V>::has, (&*final(table), &other), found),
    ensures
        found == after is Some,
        other@ == key@ ==> (after matches Some(v) && v@ == value@),
        other@ != key@ ==> {
            &&& after is Some == before is Some
            &&& after matches Some(v) ==> v@ == before->0@
        },
{
}

/// What is taken out is what was found under its key, where nothing is found any more, and what
/// stands under any other key stays.
pub proof fn law_taken_is_gone<V: View>(
    table: &mut Table<V>,
    key: &Vec<u8>,
    other: Vec<u8>,
    taken: Option<V>,
    before: Option<&V>,
    after: Option<&V>,
)
    requires
        call_ensures(Table::<V>::get, (&*old(table), &other), before),
        call_ensures(Table::<V>::take, (table, key), taken),
        call_ensures(Table::<V>::get, (&*final(table), &other), after),
    ensures
        other@ == key@ ==> {
            &&& after is None
            &&& taken is Some == before is Some
            &&& taken matches Some(v) ==> v@ == before->0@
        },
        other@ != key@ ==> {
            &&& after is Some == before is Some
            &&& after matches Some(v) ==> v@ == before->0@
        },
{
}

/// In a new table nothing is found.
pub proof fn law_new_table_is_empty<V: View>(table: Table<V>, key: Vec<u8>, found: Option<&V>)
    requires
        call_ensures(Table::<V>::new, (), table),
        call_ensures(Table::<V>::get, (&table, &key), found),
    ensures
        found is None,
{
}

/// Two byte strings are the same where they are as long and agree in each byte; a copy is the same.
pub proof fn law_bytes_compare(a: &Vec<u8>, b: &Vec<u8>, same: bool, copy: Vec<u8>)
    requires
        call_ensures(same_bytes, (a, b), same),
        call_ensures(copy_bytes, (a,), copy),
    ensures
        same <==> a@.len() == b@.len() && forall|i: int| 0 <= i < a@.len() ==> a@[i] == b@[i],
        copy@.len() == a@.len(),
        forall|i: int| 0 <= i < a@.len() ==> copy@[i] == a@[i],
{
    if a@.len() == b@.len() && forall|i: int| 0 <= i < a@.len() ==> a@[i] == b@[i] {
        assert(a@ =~= b@);
    }
}

} // verus!
