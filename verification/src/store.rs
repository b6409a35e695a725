//! The cache store: a map from key to entry behind one exclusive owner,
//! with lazy time-based expiry applied on reads.

use vstd::prelude::*;

verus! {

/// One stored value: the payload bytes, the writer's opaque flags
/// returned verbatim, and the absolute expiry instant in seconds
/// (`0` meaning the entry never expires).
pub struct CacheEntry {
    pub data: Vec<u8>,
    pub flags: i32,
    pub expire: u64,
}

/// The mathematical image of a stored entry.
pub struct EntryModel {
    pub data: Seq<u8>,
    pub flags: i32,
    pub expire: u64,
}

impl View for CacheEntry {
    type V = EntryModel;

    open spec fn view(&self) -> EntryModel {
        EntryModel { data: self.data@, flags: self.flags, expire: self.expire }
    }
}

/// An entry is readable at second `now`: it never expires, or its expiry
/// instant has not yet passed (at the instant itself it is still valid).
pub open spec fn live(e: EntryModel, now: u64) -> bool {
    e.expire == 0 || now <= e.expire
}

/// The map written by an association list, later pairs winning.
pub open spec fn map_of(s: Seq<(Vec<u8>, CacheEntry)>) -> Map<Seq<u8>, EntryModel>
    decreases s.len(),
{
    if s.len() == 0 {
        Map::empty()
    } else {
        map_of(s.drop_last()).insert(s.last().0@, s.last().1@)
    }
}

/// The cache store.  One instance is shared by every connection; callers
/// serialize access to it (the library itself holds no lock), and each
/// get or set is one indivisible operation on it.
pub struct Store {
    entries: Vec<(Vec<u8>, CacheEntry)>,
}

impl View for Store {
    type V = Map<Seq<u8>, EntryModel>;

    closed spec fn view(&self) -> Map<Seq<u8>, EntryModel> {
        map_of(self.entries@)
    }
}

/// Every key occurs at most once in the association list.
pub open spec fn keys_unique(s: Seq<(Vec<u8>, CacheEntry)>) -> bool {
    forall|i: int, j: int| 0 <= i < j < s.len() ==> (#[trigger] s[i]).0@ != (#[trigger] s[j]).0@
}

proof fn lemma_map_of_absent(s: Seq<(Vec<u8>, CacheEntry)>, k: Seq<u8>)
    requires
        forall|i: int| 0 <= i < s.len() ==> (#[trigger] s[i]).0@ != k,
    ensures
        !map_of(s).contains_key(k),
    decreases s.len(),
{
    if s.len() > 0 {
        assert(forall|i: int| 0 <= i < s.drop_last().len() ==> (#[trigger] s.drop_last()[i]).0@
            != k) by {
            assert(forall|i: int| 0 <= i < s.drop_last().len() ==> s.drop_last()[i] == s[i]);
        }
        lemma_map_of_absent(s.drop_last(), k);
        assert(s.last() == s[s.len() - 1]);
    }
}

proof fn lemma_map_of_index(s: Seq<(Vec<u8>, CacheEntry)>, i: int)
    requires
        keys_unique(s),
        0 <= i < s.len(),
    ensures
        map_of(s).contains_key(s[i].0@),
        map_of(s)[s[i].0@] == s[i].1@,
    decreases s.len(),
{
    if i == s.len() - 1 {
        assert(s.last() == s[i]);
    } else {
        assert(keys_unique(s.drop_last()) && s.drop_last()[i] == s[i]) by {
            assert(forall|a: int| 0 <= a < s.drop_last().len() ==> s.drop_last()[a] == s[a]);
        }
        lemma_map_of_index(s.drop_last(), i);
        assert(s.last() == s[s.len() - 1]);
        assert(s[i].0@ != s[s.len() - 1].0@);
    }
}

proof fn lemma_map_of_update(s: Seq<(Vec<u8>, CacheEntry)>, i: int, p: (Vec<u8>, CacheEntry))
    requires
        keys_unique(s),
        0 <= i < s.len(),
        s[i].0@ == p.0@,
    ensures
        map_of(s.update(i, p)) == map_of(s).insert(p.0@, p.1@),
    decreases s.len(),
{
    let t = s.update(i, p);
    if i == s.len() - 1 {
        assert(t.drop_last() =~= s.drop_last());
        assert(t.last() == p);
        assert(s.last() == s[i]);
        assert(map_of(t) == map_of(s.drop_last()).insert(p.0@, p.1@));
        assert(map_of(s) == map_of(s.drop_last()).insert(s[i].0@, s[i].1@));
        assert(map_of(s).insert(p.0@, p.1@) =~= map_of(s.drop_last()).insert(p.0@, p.1@));
    } else {
        assert(keys_unique(s.drop_last()) && s.drop_last()[i] == s[i]) by {
            assert(forall|a: int| 0 <= a < s.drop_last().len() ==> s.drop_last()[a] == s[a]);
        }
        lemma_map_of_update(s.drop_last(), i, p);
        assert(t.drop_last() =~= s.drop_last().update(i, p));
        assert(t.last() == s.last());
        assert(s.last() == s[s.len() - 1]);
        assert(s[i].0@ != s[s.len() - 1].0@);
        assert(map_of(t) == map_of(s.drop_last()).insert(p.0@, p.1@).insert(s.last().0@, s.last()
            .1@));
        assert(map_of(s.drop_last()).insert(p.0@, p.1@).insert(s.last().0@, s.last().1@)
            =~= map_of(s.drop_last()).insert(s.last().0@, s.last().1@).insert(p.0@, p.1@));
    }
}

impl Store {
    /// The store's internal invariant: its keys are unique.
    pub closed spec fn wf(&self) -> bool {
        keys_unique(self.entries@)
    }

    /// An empty store.
    pub fn new() -> (s: Store)
        ensures
            s.wf(),
            s@ == Map::<Seq<u8>, EntryModel>::empty(),
    {
        Store { entries: Vec::new() }
    }

    /// Index of the pair holding `key`, if one does.
    fn find(&self, key: &Vec<u8>) -> (r: Option<usize>)
        ensures
            match r {
                Some(i) => i < self.entries@.len() && self.entries@[i as int].0@ == key@,
                None => forall|i: int|
                    0 <= i < self.entries@.len() ==> (#[trigger] self.entries@[i]).0@ != key@,
            },
    {
        let mut i: usize = 0;
        while i < self.entries.len()
            invariant
                0 <= i <= self.entries@.len(),
                forall|j: int| 0 <= j < i ==> (#[trigger] self.entries@[j]).0@ != key@,
            decreases self.entries@.len() - i,
        {
            if self.entries[i].0 == *key {
                return Some(i);
            }
            i += 1;
        }
        None
    }

    /// Look `key` up at second `now`.  Returns the entry exactly when the
    /// key is present and still live; an absent or expired key returns
    /// nothing, and nothing in the store changes on a read.
    pub fn get(&self, key: &Vec<u8>, now: u64) -> (r: Option<&CacheEntry>)
        requires
            self.wf(),
        ensures
            self@.contains_key(key@) && live(self@[key@], now) ==> (r matches Some(e) && e@
                == self@[key@]),
            !(self@.contains_key(key@) && live(self@[key@], now)) ==> r is None,
    {
        match self.find(key) {
            Some(i) => {
                proof {
                    lemma_map_of_index(self.entries@, i as int);
                }
                let entry = &self.entries[i].1;
                if entry.expire == 0 || now <= entry.expire {
                    Some(entry)
                } else {
                    None
                }
            },
            None => {
                proof {
                    lemma_map_of_absent(self.entries@, key@);
                }
                None
            },
        }
    }

    /// Write `key` unconditionally: any existing entry for it is replaced
    /// wholesale by one holding `data`, `flags` and the expiry instant
    /// `expire` (`0` meaning never).  A write always succeeds.
    pub fn set(&mut self, key: Vec<u8>, data: Vec<u8>, flags: i32, expire: u64)
        requires
            old(self).wf(),
        ensures
            final(self).wf(),
            final(self)@ == old(self)@.insert(key@, EntryModel { data: data@, flags, expire }),
    {
        let entry = CacheEntry { data, flags, expire };
        let ghost p_view = (key@, entry@);
        match self.find(&key) {
            Some(i) => {
                proof {
                    lemma_map_of_update(self.entries@, i as int, (key, entry));
                }
                let ghost olds = self.entries@;
                self.entries[i] = (key, entry);
                proof {
                    assert(keys_unique(self.entries@)) by {
                        assert(forall|a: int, b: int|
                            0 <= a < b < self.entries@.len() && a != i && b != i
                                ==> (#[trigger] self.entries@[a]).0@
                                != (#[trigger] self.entries@[b]).0@);
                    }
                }
            },
            None => {
                let ghost olds = self.entries@;
                self.entries.push((key, entry));
                proof {
                    assert(self.entries@.drop_last() =~= olds);
                    assert(keys_unique(self.entries@)) by {
                        assert(forall|a: int|
                            0 <= a < olds.len() ==> self.entries@[a] == olds[a]);
                        assert(forall|a: int|
                            0 <= a < olds.len() ==> (#[trigger] olds[a]).0@ != p_view.0);
                    }
                }
            },
        }
    }
}

} // verus!
