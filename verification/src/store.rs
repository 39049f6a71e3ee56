use crate::codec::{bytes_eq, put_slice};
use vstd::prelude::*;

verus! {

/// One record of the store.
struct Entry {
    key: Vec<u8>,
    value: Vec<u8>,
}

/// A flat key-value store: byte-string keys to byte-string values, held in
/// memory. All tables of the voting ledger live side by side in one store.
pub struct Store {
    entries: Vec<Entry>,
}

/// The mapping that a list of entries stands for: a later entry for a key
/// replaces an earlier one.
spec fn entries_map(entries: Seq<Entry>) -> Map<Seq<u8>, Seq<u8>>
    decreases entries.len(),
{
    if entries.len() == 0 {
        Map::empty()
    } else {
        entries_map(entries.drop_last()).insert(entries.last().key@, entries.last().value@)
    }
}

/// A key is mapped exactly when some entry has it.
proof fn lemma_entries_map_dom(entries: Seq<Entry>, key: Seq<u8>)
    ensures
        entries_map(entries).contains_key(key) <==> exists|i: int|
            0 <= i < entries.len() && (#[trigger] entries[i]).key@ == key,
    decreases entries.len(),
{
    if entries.len() > 0 {
        let front = entries.drop_last();
        lemma_entries_map_dom(front, key);
        if entries_map(entries).contains_key(key) {
            if entries.last().key@ == key {
                assert(entries[entries.len() - 1].key@ == key);
            } else {
                let i = choose|i: int| 0 <= i < front.len() && (#[trigger] front[i]).key@ == key;
                assert(entries[i].key@ == key);
            }
        }
        if exists|i: int| 0 <= i < entries.len() && (#[trigger] entries[i]).key@ == key {
            let i = choose|i: int| 0 <= i < entries.len() && (#[trigger] entries[i]).key@ == key;
            if i < front.len() {
                assert(front[i].key@ == key);
            }
        }
    }
}

/// Dropping an entry for `key` changes nothing for the other keys.
proof fn lemma_remove_entry(entries: Seq<Entry>, i: int, key: Seq<u8>)
    requires
        0 <= i < entries.len(),
        entries[i].key@ == key,
    ensures
        entries_map(entries.remove(i)).remove(key) == entries_map(entries).remove(key),
    decreases entries.len(),
{
    let front = entries.drop_last();
    let last = entries.last();
    if i == entries.len() - 1 {
        assert(entries.remove(i) =~= front);
        assert(entries_map(front).insert(key, last.value@).remove(key) =~= entries_map(
            front,
        ).remove(key));
    } else {
        lemma_remove_entry(front, i, key);
        assert(entries.remove(i).drop_last() =~= front.remove(i));
        assert(entries.remove(i).last() == last);
        let shorter = entries_map(front.remove(i));
        let full = entries_map(front);
        assert(shorter.insert(last.key@, last.value@).remove(key) =~= full.insert(
            last.key@,
            last.value@,
        ).remove(key)) by {
            assert(shorter.remove(key) == full.remove(key));
            if last.key@ == key {
                assert(shorter.insert(last.key@, last.value@).remove(key) =~= shorter.remove(key));
                assert(full.insert(last.key@, last.value@).remove(key) =~= full.remove(key));
            } else {
                assert(shorter.insert(last.key@, last.value@).remove(key) =~= shorter.remove(
                    key,
                ).insert(last.key@, last.value@));
                assert(full.insert(last.key@, last.value@).remove(key) =~= full.remove(key).insert(
                    last.key@,
                    last.value@,
                ));
            }
        }
    }
}

/// Whether some entry of the list has the key.
spec fn has_entry(entries: Seq<Entry>, key: Seq<u8>) -> bool {
    exists|i: int| 0 <= i < entries.len() && (#[trigger] entries[i]).key@ == key
}

/// Whether the list of keys holds `key`.
pub open spec fn lists_key(keys: Seq<Vec<u8>>, key: Seq<u8>) -> bool {
    exists|i: int| 0 <= i < keys.len() && (#[trigger] keys[i])@ == key
}

impl View for Store {
    type V = Map<Seq<u8>, Seq<u8>>;

    closed spec fn view(&self) -> Map<Seq<u8>, Seq<u8>> {
        entries_map(self.entries@)
    }
}

fn copy_bytes(src: &Vec<u8>) -> (out: Vec<u8>)
    ensures
        out@ == src@,
{
    let mut out: Vec<u8> = Vec::new();
    put_slice(&mut out, src, 0, src.len());
    assert(src@.subrange(0, src@.len() as int) =~= src@);
    out
}

impl Store {
    /// A store that holds nothing.
    pub fn new() -> (store: Store)
        ensures
            store@ == Map::<Seq<u8>, Seq<u8>>::empty(),
    {
        Store { entries: Vec::new() }
    }

    /// The value stored under `key`, if there is one.
    pub fn get(&self, key: &Vec<u8>) -> (value: Option<Vec<u8>>)
        ensures
            value is Some <==> self@.contains_key(key@),
            value matches Some(v) ==> v@ == self@[key@],
    {
        let mut found: Option<Vec<u8>> = None;
        let mut i: usize = 0;
        assert(self.entries@.subrange(0, 0) =~= Seq::<Entry>::empty());
        while i < self.entries.len()
            invariant
                i <= self.entries@.len(),
                found is Some <==> entries_map(self.entries@.subrange(0, i as int)).contains_key(
                    key@,
                ),
                found matches Some(v) ==> v@ == entries_map(
                    self.entries@.subrange(0, i as int),
                )[key@],
            decreases self.entries@.len() - i,
        {
            proof {
                let next = self.entries@.subrange(0, i + 1);
                assert(next.drop_last() =~= self.entries@.subrange(0, i as int));
                assert(next.last() == self.entries@[i as int]);
            }
            if bytes_eq(&self.entries[i].key, key) {
                found = Some(copy_bytes(&self.entries[i].value));
            }
            i += 1;
        }
        assert(self.entries@.subrange(0, self.entries@.len() as int) =~= self.entries@);
        found
    }

    /// Whether a value is stored under `key`.
    pub fn contains(&self, key: &Vec<u8>) -> (present: bool)
        ensures
            present == self@.contains_key(key@),
    {
        self.get(key).is_some()
    }

    /// Stores `value` under `key`, in place of what was there.
    pub fn set(&mut self, key: Vec<u8>, value: Vec<u8>)
        ensures
            final(self)@ == old(self)@.insert(key@, value@),
    {
        self.del(&key);
        let ghost before = self.entries@;
        self.entries.push(Entry { key, value });
        proof {
            assert(self.entries@.drop_last() =~= before);
            assert(old(self)@.remove(key@).insert(key@, value@) =~= old(self)@.insert(
                key@,
                value@,
            ));
        }
    }

    /// Removes what is stored under `key`, if anything.
    pub fn del(&mut self, key: &Vec<u8>)
        ensures
            final(self)@ == old(self)@.remove(key@),
    {
        let mut i: usize = 0;
        while i < self.entries.len()
            invariant
                i <= self.entries@.len(),
                entries_map(self.entries@).remove(key@) == entries_map(old(self).entries@).remove(
                    key@,
                ),
                forall|j: int| 0 <= j < i ==> (#[trigger] self.entries@[j]).key@ != key@,
            decreases self.entries@.len() - i,
        {
            if bytes_eq(&self.entries[i].key, key) {
                proof {
                    lemma_remove_entry(self.entries@, i as int, key@);
                }
                self.entries.remove(i);
            } else {
                i += 1;
            }
        }
        proof {
            lemma_entries_map_dom(self.entries@, key@);
            assert(entries_map(self.entries@).remove(key@) =~= entries_map(self.entries@));
        }
    }

    /// Removes every record.
    pub fn clear(&mut self)
        ensures
            final(self)@ == Map::<Seq<u8>, Seq<u8>>::empty(),
    {
        self.entries = Vec::new();
    }

    /// The keys under which something is stored, each once.
    pub fn keys(&self) -> (keys: Vec<Vec<u8>>)
        ensures
            forall|k: Seq<u8>| self@.contains_key(k) <==> #[trigger] lists_key(keys@, k),
            forall|i: int, j: int|
                0 <= i < j < keys@.len() ==> (#[trigger] keys@[i])@ != (#[trigger] keys@[j])@,
    {
        let mut keys: Vec<Vec<u8>> = Vec::new();
        let mut i: usize = 0;
        while i < self.entries.len()
            invariant
                i <= self.entries@.len(),
                forall|k: Seq<u8>|
                    has_entry(self.entries@.subrange(0, i as int), k) <==> #[trigger] lists_key(
                        keys@,
                        k,
                    ),
                forall|a: int, b: int|
                    0 <= a < b < keys@.len() ==> (#[trigger] keys@[a])@ != (#[trigger] keys@[b])@,
            decreases self.entries@.len() - i,
        {
            let mut seen: bool = false;
            let mut n: usize = 0;
            while n < keys.len()
                invariant
                    n <= keys@.len(),
                    i < self.entries@.len(),
                    seen <==> lists_key(keys@.subrange(0, n as int), self.entries@[i as int].key@),
                decreases keys@.len() - n,
            {
                let ghost upto = keys@.subrange(0, n as int);
                let ghost next = keys@.subrange(0, n + 1);
                let ghost key = self.entries@[i as int].key@;
                if bytes_eq(&keys[n], &self.entries[i].key) {
                    seen = true;
                    assert(next[n as int]@ == key);
                } else {
                    proof {
                        if lists_key(next, key) {
                            let m = choose|m: int|
                                0 <= m < next.len() && (#[trigger] next[m])@ == key;
                            assert(upto[m]@ == key);
                        }
                        if lists_key(upto, key) {
                            let m = choose|m: int|
                                0 <= m < upto.len() && (#[trigger] upto[m])@ == key;
                            assert(next[m]@ == key);
                        }
                    }
                }
                n += 1;
            }
            assert(keys@.subrange(0, keys@.len() as int) =~= keys@);
            let ghost before = keys@;
            let ghost key = self.entries@[i as int].key@;
            let ghost done = self.entries@.subrange(0, i as int);
            let ghost more = self.entries@.subrange(0, i + 1);
            if !seen {
                keys.push(copy_bytes(&self.entries[i].key));
            }
            proof {
                assert forall|k: Seq<u8>|
                    has_entry(more, k) <==> #[trigger] lists_key(keys@, k) by {
                    if has_entry(more, k) {
                        let e = choose|e: int|
                            0 <= e < more.len() && (#[trigger] more[e]).key@ == k;
                        if e < i {
                            assert(done[e].key@ == k);
                            assert(lists_key(before, k));
                            let m = choose|m: int|
                                0 <= m < before.len() && (#[trigger] before[m])@ == k;
                            assert(keys@[m]@ == k);
                        } else if seen {
                            let m = choose|m: int|
                                0 <= m < before.len() && (#[trigger] before[m])@ == key;
                            assert(keys@[m]@ == k);
                        } else {
                            assert(keys@[keys@.len() - 1]@ == k);
                        }
                    }
                    if lists_key(keys@, k) {
                        let m = choose|m: int| 0 <= m < keys@.len() && (#[trigger] keys@[m])@ == k;
                        if m < before.len() {
                            assert(before[m]@ == k);
                            assert(lists_key(before, k));
                            let e = choose|e: int|
                                0 <= e < done.len() && (#[trigger] done[e]).key@ == k;
                            assert(more[e].key@ == k);
                        } else {
                            assert(more[i as int].key@ == k);
                        }
                    }
                }
                if !seen {
                    assert forall|a: int, b: int| 0 <= a < b < keys@.len() implies (
                    #[trigger] keys@[a])@ != (#[trigger] keys@[b])@ by {
                        if b == before.len() {
                            if keys@[a]@ == key {
                                assert(before[a]@ == key);
                                assert(lists_key(before, key));
                            }
                        }
                    }
                }
            }
            i += 1;
        }
        proof {
            assert(self.entries@.subrange(0, self.entries@.len() as int) =~= self.entries@);
            assert forall|k: Seq<u8>| self@.contains_key(k) <==> #[trigger] lists_key(keys@, k) by {
                lemma_entries_map_dom(self.entries@, k);
            }
        }
        keys
    }
}

} // verus!
