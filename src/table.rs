use vstd::prelude::*;

verus! {

/// The map that a list of entries stands for: later entries win.
pub open spec fn entries_map<V>(s: Seq<(Vec<u8>, V)>) -> Map<Seq<u8>, V>
    decreases s.len(),
{
    if s.len() == 0 {
        Map::empty()
    } else {
        entries_map(s.drop_last()).insert(s.last().0@, s.last().1)
    }
}

/// No two entries share a key.
pub open spec fn keys_unique<V>(s: Seq<(Vec<u8>, V)>) -> bool {
    forall|i: int, j: int| 0 <= i < j < s.len() ==> s[i].0@ != s[j].0@
}

proof fn lemma_entries_map<V>(s: Seq<(Vec<u8>, V)>)
    requires
        keys_unique(s),
    ensures
        forall|k: Seq<u8>|
            #[trigger] entries_map(s).contains_key(k) <==> exists|i: int|
                0 <= i < s.len() && s[i].0@ == k,
        forall|i: int| 0 <= i < s.len() ==> #[trigger] entries_map(s)[s[i].0@] == s[i].1,
    decreases s.len(),
{
    if s.len() > 0 {
        let init = s.drop_last();
        assert forall|i: int, j: int| 0 <= i < j < init.len() implies init[i].0@ != init[j].0@ by {
            assert(init[i] == s[i]);
            assert(init[j] == s[j]);
        }
        lemma_entries_map(init);
        assert forall|k: Seq<u8>| #[trigger] entries_map(s).contains_key(k) <==> exists|i: int|
            0 <= i < s.len() && s[i].0@ == k by {
            if k != s.last().0@ && entries_map(init).contains_key(k) {
                let i = choose|i: int| 0 <= i < init.len() && init[i].0@ == k;
                assert(s[i] == init[i]);
            }
            if exists|i: int| 0 <= i < s.len() && s[i].0@ == k {
                let i = choose|i: int| 0 <= i < s.len() && s[i].0@ == k;
                if i < s.len() - 1 {
                    assert(s[i] == init[i]);
                }
            }
        }
        assert forall|i: int| 0 <= i < s.len() implies #[trigger] entries_map(s)[s[i].0@]
            == s[i].1 by {
            if i < s.len() - 1 {
                assert(s[i] == init[i]);
                assert(s[i].0@ != s[s.len() - 1].0@);
                assert(entries_map(init)[init[i].0@] == init[i].1);
            } else {
                assert(s[i] == s.last());
            }
        }
    }
}

/// A finite map from byte strings to values, written at most once per key
/// unless explicitly overwritten.
pub struct KeyedTable<V> {
    entries: Vec<(Vec<u8>, V)>,
}

fn bytes_equal(a: &[u8], b: &[u8]) -> (r: bool)
    ensures
        r == (a@ == b@),
{
    if a.len() != b.len() {
        return false;
    }
    let mut i: usize = 0;
    while i < a.len()
        invariant
            0 <= i <= a@.len(),
            a@.len() == b@.len(),
            forall|k: int| 0 <= k < i ==> a@[k] == b@[k],
        decreases a@.len() - i,
    {
        if a[i] != b[i] {
            return false;
        }
        i = i + 1;
    }
    assert(a@ =~= b@);
    true
}

impl<V: Copy> KeyedTable<V> {
    pub closed spec fn view(&self) -> Map<Seq<u8>, V> {
        entries_map(self.entries@)
    }

    pub closed spec fn wf(&self) -> bool {
        keys_unique(self.entries@)
    }

    /// An empty table.
    pub fn new() -> (r: Self)
        ensures
            r.wf(),
            r@ == Map::<Seq<u8>, V>::empty(),
    {
        KeyedTable { entries: Vec::new() }
    }

    fn find(&self, key: &[u8]) -> (r: Option<usize>)
        requires
            self.wf(),
        ensures
            r.is_none() ==> !self@.contains_key(key@),
            r.is_some() ==> r.unwrap() < self.entries@.len() && self.entries@[r.unwrap() as int].0@
                == key@,
    {
        proof {
            lemma_entries_map(self.entries@);
        }
        let mut i: usize = 0;
        while i < self.entries.len()
            invariant
                0 <= i <= self.entries@.len(),
                forall|k: int| 0 <= k < i ==> self.entries@[k].0@ != key@,
            decreases self.entries@.len() - i,
        {
            if bytes_equal(self.entries[i].0.as_slice(), key) {
                return Some(i);
            }
            i = i + 1;
        }
        None
    }

    /// The value stored under `key`, if any.
    pub fn get(&self, key: &[u8]) -> (r: Option<V>)
        requires
            self.wf(),
        ensures
            r == (if self@.contains_key(key@) {
                Some(self@[key@])
            } else {
                None::<V>
            }),
    {
        proof {
            lemma_entries_map(self.entries@);
        }
        match self.find(key) {
            Some(i) => Some(self.entries[i].1),
            None => None,
        }
    }

    /// Stores `value` under `key` unless the key is already present; says
    /// whether it stored it.
    pub fn insert_new(&mut self, key: &[u8], value: V) -> (r: bool)
        requires
            old(self).wf(),
        ensures
            final(self).wf(),
            r == !old(self)@.contains_key(key@),
            final(self)@ == (if r {
                old(self)@.insert(key@, value)
            } else {
                old(self)@
            }),
    {
        proof {
            lemma_entries_map(self.entries@);
        }
        match self.find(key) {
            Some(_) => false,
            None => {
                let ghost s = self.entries@;
                let k = vstd::slice::slice_to_vec(key);
                self.entries.push((k, value));
                assert(self.entries@.drop_last() =~= s);
                assert forall|i: int, j: int| 0 <= i < j < self.entries@.len() implies self.entries@[i].0@
                    != self.entries@[j].0@ by {
                    if j == s.len() {
                        assert(entries_map(s).contains_key(s[i].0@));
                    }
                }
                true
            },
        }
    }

    /// Stores `value` under `key`, replacing what was there.
    pub fn set(&mut self, key: &[u8], value: V)
        requires
            old(self).wf(),
        ensures
            final(self).wf(),
            final(self)@ == old(self)@.insert(key@, value),
    {
        proof {
            lemma_entries_map(self.entries@);
        }
        match self.find(key) {
            Some(i) => {
                let ghost s = self.entries@;
                let k = vstd::slice::slice_to_vec(key);
                self.entries.set(i, (k, value));
                let ghost t = self.entries@;
                assert(keys_unique(t)) by {
                    assert forall|a: int, b: int| 0 <= a < b < t.len() implies t[a].0@
                        != t[b].0@ by {
                        assert(s[a].0@ != s[b].0@);
                    }
                }
                proof {
                    lemma_entries_map(t);
                    assert forall|x: Seq<u8>| #[trigger] entries_map(t).contains_key(x)
                        <==> entries_map(s).insert(key@, value).contains_key(x) by {
                        if entries_map(s).contains_key(x) {
                            let j = choose|j: int| 0 <= j < s.len() && s[j].0@ == x;
                            assert(t[j].0@ == x);
                        }
                        if entries_map(t).contains_key(x) {
                            let j = choose|j: int| 0 <= j < t.len() && t[j].0@ == x;
                            assert(s[j].0@ == x);
                        }
                    }
                    assert forall|x: Seq<u8>| #[trigger] entries_map(t).contains_key(x) implies entries_map(t)[x]
                        == entries_map(s).insert(key@, value)[x] by {
                        let j = choose|j: int| 0 <= j < t.len() && t[j].0@ == x;
                        assert(entries_map(t)[t[j].0@] == t[j].1);
                        if j != i {
                            assert(entries_map(s)[s[j].0@] == s[j].1);
                        }
                    }
                    assert(entries_map(t) =~= entries_map(s).insert(key@, value));
                }
            },
            None => {
                let ghost s = self.entries@;
                let k = vstd::slice::slice_to_vec(key);
                self.entries.push((k, value));
                assert(self.entries@.drop_last() =~= s);
                assert forall|i: int, j: int| 0 <= i < j < self.entries@.len() implies self.entries@[i].0@
                    != self.entries@[j].0@ by {
                    if j == s.len() {
                        assert(entries_map(s).contains_key(s[i].0@));
                    }
                }
            },
        }
    }
}

} // verus!
