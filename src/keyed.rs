use vstd::prelude::*;

verus! {

/// Byte-wise equality of two identifiers.
pub fn bytes_eq(a: &[u8], b: &[u8]) -> (r: bool)
    ensures
        r == (a@ == b@),
{
    if a.len() != b.len() {
        return false;
    }
    let mut i: usize = 0;
    while i < a.len()
        invariant
            a@.len() == b@.len(),
            0 <= i <= a@.len(),
            forall|j: int| 0 <= j < i ==> a@[j] == b@[j],
        decreases a@.len() - i,
    {
        if a[i] != b[i] {
            return false;
        }
        i = i + 1;
    }
    assert(a@ =~= b@);
    true
}

/// An owned copy of a byte string.
pub fn copy_bytes(a: &[u8]) -> (r: Vec<u8>)
    ensures
        r@ == a@,
{
    let mut r: Vec<u8> = Vec::new();
    let mut i: usize = 0;
    while i < a.len()
        invariant
            0 <= i <= a@.len(),
            r@ == a@.subrange(0, i as int),
        decreases a@.len() - i,
    {
        r.push(a[i]);
        i = i + 1;
    }
    assert(r@ =~= a@);
    r
}

/// The byte strings that a list of them holds.
pub open spec fn views_of(l: Seq<Vec<u8>>) -> Seq<Seq<u8>> {
    l.map_values(|x: Vec<u8>| x@)
}

/// An owned copy of a list of byte strings.
pub fn copy_byte_lists(a: &Vec<Vec<u8>>) -> (r: Vec<Vec<u8>>)
    ensures
        views_of(r@) == views_of(a@),
{
    let mut r: Vec<Vec<u8>> = Vec::new();
    let mut i: usize = 0;
    while i < a.len()
        invariant
            0 <= i <= a@.len(),
            r@.len() == i,
            forall|j: int| 0 <= j < i ==> #[trigger] r@[j]@ == a@[j]@,
        decreases a@.len() - i,
    {
        let b = copy_bytes(a[i].as_slice());
        r.push(b);
        i = i + 1;
    }
    assert(views_of(r@) =~= views_of(a@));
    r
}

/// A map from byte-string keys to values, held as a list of entries whose
/// keys are pairwise distinct.
pub struct ByteMap<V> {
    entries: Vec<(Vec<u8>, V)>,
    model: Ghost<Map<Seq<u8>, V>>,
}

impl<V> View for ByteMap<V> {
    type V = Map<Seq<u8>, V>;

    closed spec fn view(&self) -> Map<Seq<u8>, V> {
        self.model@
    }
}

/// The list that a map of lists holds under `k`, empty where it holds none.
pub open spec fn list_at<T>(m: Map<Seq<u8>, Vec<T>>, k: Seq<u8>) -> Seq<T> {
    if m.contains_key(k) {
        m[k]@
    } else {
        Seq::empty()
    }
}

impl<V> ByteMap<V> {
    pub closed spec fn wf(&self) -> bool {
        &&& forall|i: int, j: int|
            0 <= i < j < self.entries@.len() ==> #[trigger] self.entries@[i].0@
                != #[trigger] self.entries@[j].0@
        &&& forall|i: int|
            0 <= i < self.entries@.len() ==> self.model@.contains_key(#[trigger] self.entries@[i].0@)
                && self.model@[self.entries@[i].0@] == self.entries@[i].1
        &&& forall|k: Seq<u8>|
            #[trigger] self.model@.contains_key(k) ==> exists|i: int|
                0 <= i < self.entries@.len() && #[trigger] self.entries@[i].0@ == k
    }

    pub fn new() -> (r: Self)
        ensures
            r.wf(),
            r@ == Map::<Seq<u8>, V>::empty(),
    {
        ByteMap { entries: Vec::new(), model: Ghost(Map::empty()) }
    }

    /// The position of the entry under `key`, if any.
    fn position(&self, key: &[u8]) -> (r: Option<usize>)
        requires
            self.wf(),
        ensures
            match r {
                Some(i) => i < self.entries@.len() && self.entries@[i as int].0@ == key@,
                None => !self@.contains_key(key@),
            },
    {
        let mut i: usize = 0;
        while i < self.entries.len()
            invariant
                self.wf(),
                0 <= i <= self.entries@.len(),
                forall|j: int| 0 <= j < i ==> self.entries@[j].0@ != key@,
            decreases self.entries@.len() - i,
        {
            if bytes_eq(self.entries[i].0.as_slice(), key) {
                return Some(i);
            }
            i = i + 1;
        }
        None
    }

    pub fn contains_key(&self, key: &[u8]) -> (r: bool)
        requires
            self.wf(),
        ensures
            r == self@.contains_key(key@),
    {
        self.position(key).is_some()
    }

    pub fn get(&self, key: &[u8]) -> (r: Option<&V>)
        requires
            self.wf(),
        ensures
            match r {
                Some(v) => self@.contains_key(key@) && *v == self@[key@],
                None => !self@.contains_key(key@),
            },
    {
        match self.position(key) {
            Some(i) => Some(&self.entries[i].1),
            None => None,
        }
    }

    /// Replacing the value of the entry at position `i`, whose key is
    /// `key`, and recording the new value in the model keeps the map
    /// well formed.
    proof fn lemma_entry_replaced(before: Self, after: Self, i: int, key: Seq<u8>)
        requires
            before.wf(),
            0 <= i < before.entries@.len(),
            before.entries@[i].0@ == key,
            after.entries@.len() == before.entries@.len(),
            after.entries@[i].0 == before.entries@[i].0,
            forall|j: int|
                0 <= j < before.entries@.len() && j != i ==> after.entries@[j] == before.entries@[j],
            after.model@ == before.model@.insert(key, after.entries@[i].1),
        ensures
            after.wf(),
    {
        assert forall|k: Seq<u8>| #[trigger] after.model@.contains_key(k) implies exists|j: int|
            0 <= j < after.entries@.len() && #[trigger] after.entries@[j].0@ == k by {
            if k != key {
                assert(before.model@.contains_key(k));
                let j = choose|j: int|
                    0 <= j < before.entries@.len() && #[trigger] before.entries@[j].0@ == k;
                assert(after.entries@[j].0 == before.entries@[j].0);
            } else {
                assert(after.entries@[i].0@ == k);
            }
        }
        assert forall|j: int| 0 <= j < after.entries@.len() implies after.model@.contains_key(
            #[trigger] after.entries@[j].0@)
            && after.model@[after.entries@[j].0@] == after.entries@[j].1 by {
            if j != i {
                assert(after.entries@[j] == before.entries@[j]);
                assert(before.entries@[j].0@ != before.entries@[i].0@);
            }
        }
        assert forall|a: int, b: int|
            0 <= a < b < after.entries@.len() implies #[trigger] after.entries@[a].0@
            != #[trigger] after.entries@[b].0@ by {
            assert(after.entries@[a].0 == before.entries@[a].0);
            assert(after.entries@[b].0 == before.entries@[b].0);
        }
    }

    pub fn insert(&mut self, key: &[u8], value: V)
        requires
            old(self).wf(),
        ensures
            final(self).wf(),
            final(self)@ == old(self)@.insert(key@, value),
    {
        match self.position(key) {
            Some(i) => {
                self.entries[i].1 = value;
                self.model = Ghost(self.model@.insert(key@, value));
                proof {
                    Self::lemma_entry_replaced(*old(self), *self, i as int, key@);
                }
            },
            None => {
                let k = crate::keyed::copy_bytes(key);
                self.entries.push((k, value));
                self.model = Ghost(self.model@.insert(key@, value));
                let ghost n = self.entries@.len() - 1;
                assert(self.entries@[n].0@ == key@);
                assert forall|k2: Seq<u8>| #[trigger] self.model@.contains_key(k2) implies exists|j: int|
                    0 <= j < self.entries@.len() && #[trigger] self.entries@[j].0@ == k2 by {
                    if k2 != key@ {
                        assert(old(self).model@.contains_key(k2));
                        let j = choose|j: int|
                            0 <= j < old(self).entries@.len() && #[trigger] old(self).entries@[j].0@
                                == k2;
                        assert(self.entries@[j] == old(self).entries@[j]);
                    }
                }
            },
        }
    }
}

impl<T> ByteMap<Vec<T>> {
    /// Appends `value` to the list under `key`, starting a list where there
    /// is none.
    pub fn append(&mut self, key: &[u8], value: T)
        requires
            old(self).wf(),
        ensures
            final(self).wf(),
            final(self)@.dom() == old(self)@.dom().insert(key@),
            list_at(final(self)@, key@) == list_at(old(self)@, key@).push(value),
            forall|k: Seq<u8>| k != key@ ==> #[trigger] final(self)@.get(k) == old(self)@.get(k),
            forall|k: Seq<u8>| k != key@ ==> #[trigger] list_at(final(self)@, k) == list_at(old(self)@, k),
    {
        match self.position(key) {
            Some(i) => {
                self.entries[i].1.push(value);
                self.model = Ghost(self.model@.insert(key@, self.entries@[i as int].1));
                proof {
                    Self::lemma_entry_replaced(*old(self), *self, i as int, key@);
                }
            },
            None => {
                let mut list: Vec<T> = Vec::new();
                list.push(value);
                self.insert(key, list);
            },
        }
        assert(self@.dom() =~= old(self)@.dom().insert(key@));
    }
}

} // verus!
