//! A table of values keyed by item, with at most one value per item.
use vstd::prelude::*;
use crate::item::{ComponentView, Item};

verus! {

/// A value that belongs to one item.
pub trait Keyed {
    spec fn key(&self) -> Seq<ComponentView>;

    fn item(&self) -> (r: &Item)
        ensures
            r@ == self.key(),
    ;
}

/// Values keyed by item, in insertion order, with unique keys.
pub struct Table<T> {
    entries: Vec<T>,
}

/// Whether no two values of `s` share a key.
pub open spec fn keys_unique<T: Keyed>(s: Seq<T>) -> bool {
    forall|i: int, j: int|
        0 <= i < s.len() && 0 <= j < s.len() && i != j ==> #[trigger] s[i].key() != #[trigger] s[j].key()
}

/// Whether some value of `s` has key `k`.
pub open spec fn has_key<T: Keyed>(s: Seq<T>, k: Seq<ComponentView>) -> bool {
    exists|i: int| 0 <= i < s.len() && #[trigger] s[i].key() == k
}

/// The map from key to value that `s` holds.
pub open spec fn as_map<T: Keyed>(s: Seq<T>) -> Map<Seq<ComponentView>, T> {
    Map::new(
        |k: Seq<ComponentView>| has_key(s, k),
        |k: Seq<ComponentView>| s[choose|i: int| 0 <= i < s.len() && #[trigger] s[i].key() == k],
    )
}

proof fn lemma_at<T: Keyed>(s: Seq<T>, i: int)
    requires
        keys_unique(s),
        0 <= i < s.len(),
    ensures
        as_map(s).contains_key(s[i].key()),
        as_map(s)[s[i].key()] == s[i],
{
    let k = s[i].key();
    assert(has_key(s, k));
    let j = choose|j: int| 0 <= j < s.len() && #[trigger] s[j].key() == k;
    assert(i == j);
}

proof fn lemma_push<T: Keyed>(s: Seq<T>, v: T)
    requires
        keys_unique(s),
        !has_key(s, v.key()),
    ensures
        keys_unique(s.push(v)),
        as_map(s.push(v)) == as_map(s).insert(v.key(), v),
{
    let t = s.push(v);
    assert forall|i: int, j: int|
        0 <= i < t.len() && 0 <= j < t.len() && i != j implies #[trigger] t[i].key() != #[trigger] t[j].key() by {
        if i < s.len() && j < s.len() {
            assert(s[i].key() != s[j].key());
        } else if i < s.len() {
            assert(s[i] == t[i]);
        } else {
            assert(s[j] == t[j]);
        }
    }
    assert forall|k: Seq<ComponentView>| #[trigger] as_map(t).contains_key(k) == as_map(s).insert(v.key(), v).contains_key(k) by {
        if has_key(t, k) {
            let i = choose|i: int| 0 <= i < t.len() && #[trigger] t[i].key() == k;
            if i < s.len() {
                assert(s[i] == t[i]);
                assert(has_key(s, k));
            }
        }
        if has_key(s, k) {
            let i = choose|i: int| 0 <= i < s.len() && #[trigger] s[i].key() == k;
            assert(t[i] == s[i]);
        }
        if k == v.key() {
            assert(t[s.len() as int] == v);
        }
    }
    assert forall|k: Seq<ComponentView>| #[trigger] as_map(t).contains_key(k) implies as_map(t)[k] == as_map(s).insert(v.key(), v)[k] by {
        let i = choose|i: int| 0 <= i < t.len() && #[trigger] t[i].key() == k;
        lemma_at(t, i);
        if i < s.len() {
            assert(s[i] == t[i]);
            lemma_at(s, i);
        }
    }
    assert(as_map(t) =~= as_map(s).insert(v.key(), v));
}

proof fn lemma_remove<T: Keyed>(s: Seq<T>, i: int)
    requires
        keys_unique(s),
        0 <= i < s.len(),
    ensures
        keys_unique(s.remove(i)),
        as_map(s.remove(i)) == as_map(s).remove(s[i].key()),
{
    let t = s.remove(i);
    let ki = s[i].key();
    assert forall|a: int, b: int|
        0 <= a < t.len() && 0 <= b < t.len() && a != b implies #[trigger] t[a].key() != #[trigger] t[b].key() by {
        let a2 = if a < i { a } else { a + 1 };
        let b2 = if b < i { b } else { b + 1 };
        assert(t[a] == s[a2]);
        assert(t[b] == s[b2]);
        assert(s[a2].key() != s[b2].key());
    }
    assert forall|k: Seq<ComponentView>| #[trigger] as_map(t).contains_key(k) == as_map(s).remove(ki).contains_key(k) by {
        if has_key(t, k) {
            let a = choose|a: int| 0 <= a < t.len() && #[trigger] t[a].key() == k;
            let a2 = if a < i { a } else { a + 1 };
            assert(t[a] == s[a2]);
            assert(has_key(s, k));
            assert(s[i].key() != s[a2].key());
        }
        if has_key(s, k) && k != ki {
            let a = choose|a: int| 0 <= a < s.len() && #[trigger] s[a].key() == k;
            let a2 = if a < i { a } else { a - 1 };
            assert(t[a2] == s[a]);
        }
    }
    assert forall|k: Seq<ComponentView>| #[trigger] as_map(t).contains_key(k) implies as_map(t)[k] == as_map(s).remove(ki)[k] by {
        let a = choose|a: int| 0 <= a < t.len() && #[trigger] t[a].key() == k;
        lemma_at(t, a);
        let a2 = if a < i { a } else { a + 1 };
        assert(t[a] == s[a2]);
        lemma_at(s, a2);
    }
    assert(as_map(t) =~= as_map(s).remove(ki));
}

impl<T: Keyed> Table<T> {
    /// The values by key.
    pub closed spec fn view(&self) -> Map<Seq<ComponentView>, T> {
        as_map(self.entries@)
    }

    /// The values in insertion order.
    pub closed spec fn values(&self) -> Seq<T> {
        self.entries@
    }

    pub closed spec fn wf(&self) -> bool {
        keys_unique(self.entries@)
    }

    /// An empty table.
    pub fn new() -> (r: Self)
        ensures
            r.wf(),
            r.view() == Map::<Seq<ComponentView>, T>::empty(),
    {
        let r = Table { entries: Vec::new() };
        assert(r.view() =~= Map::<Seq<ComponentView>, T>::empty());
        r
    }

    /// The number of values.
    pub fn len(&self) -> (r: usize)
        requires
            self.wf(),
        ensures
            r == self.view().len(),
    {
        proof {
            self.lemma_len();
        }
        self.entries.len()
    }

    /// The number of values equals the number of keys.
    pub proof fn lemma_len(&self)
        requires
            self.wf(),
        ensures
            self.view().dom().len() == self.values().len(),
            self.view().dom().finite(),
    {
        lemma_len_seq(self.entries@);
    }

    /// Each value stands under its own key.
    pub proof fn lemma_keys(&self)
        ensures
            forall|k: Seq<ComponentView>| #[trigger] self.view().contains_key(k) ==> self.view()[k].key() == k,
    {
        assert forall|k: Seq<ComponentView>| #[trigger] self.view().contains_key(k) implies self.view()[k].key() == k by {
            let s = self.entries@;
            let i = choose|i: int| 0 <= i < s.len() && #[trigger] s[i].key() == k;
        }
    }

    /// The value at position `i`, in insertion order.
    pub fn at(&self, i: usize) -> (r: &T)
        requires
            i < self.values().len(),
        ensures
            *r == self.values()[i as int],
    {
        &self.entries[i]
    }

    /// Every value is in the map under its key.
    pub proof fn lemma_values(&self, i: int)
        requires
            self.wf(),
            0 <= i < self.values().len(),
        ensures
            self.view().contains_key(self.values()[i].key()),
            self.view()[self.values()[i].key()] == self.values()[i],
    {
        lemma_at(self.entries@, i);
    }

    /// Every key of the map is the key of some value.
    pub proof fn lemma_values_cover(&self, k: Seq<ComponentView>)
        requires
            self.view().contains_key(k),
        ensures
            exists|i: int| 0 <= i < self.values().len() && #[trigger] self.values()[i].key() == k,
    {
        let s = self.entries@;
        let i = choose|i: int| 0 <= i < s.len() && #[trigger] s[i].key() == k;
        assert(self.values()[i].key() == k);
    }

    /// The position of the value with key `item`, if any.
    fn find(&self, item: &Item) -> (r: Option<usize>)
        requires
            self.wf(),
        ensures
            r is None ==> !self.view().contains_key(item@),
            r matches Some(i) ==> i < self.entries@.len() && self.entries@[i as int].key() == item@,
    {
        let mut i: usize = 0;
        while i < self.entries.len()
            invariant
                i <= self.entries@.len(),
                forall|j: int| 0 <= j < i ==> #[trigger] self.entries@[j].key() != item@,
            decreases self.entries@.len() - i,
        {
            if self.entries[i].item().same(item) {
                return Some(i);
            }
            i = i + 1;
        }
        None
    }

    /// The value with key `item`, if any.
    pub fn get(&self, item: &Item) -> (r: Option<&T>)
        requires
            self.wf(),
        ensures
            r is None ==> !self.view().contains_key(item@),
            r matches Some(v) ==> self.view().contains_key(item@) && self.view()[item@] == *v,
    {
        match self.find(item) {
            Some(i) => {
                proof {
                    lemma_at(self.entries@, i as int);
                }
                Some(&self.entries[i])
            },
            None => None,
        }
    }

    /// Add a value whose key is not in the table yet.
    pub fn insert(&mut self, v: T)
        requires
            old(self).wf(),
            !old(self).view().contains_key(v.key()),
        ensures
            final(self).wf(),
            final(self).view() == old(self).view().insert(v.key(), v),
            final(self).values() == old(self).values().push(v),
    {
        proof {
            lemma_push(self.entries@, v);
        }
        self.entries.push(v);
    }

    /// Remove and return the value with key `item`, if any.
    pub fn take(&mut self, item: &Item) -> (r: Option<T>)
        requires
            old(self).wf(),
        ensures
            final(self).wf(),
            !old(self).view().contains_key(item@) ==> r is None && *final(self) == *old(self),
            old(self).view().contains_key(item@) ==> r == Some(old(self).view()[item@])
                && final(self).view() == old(self).view().remove(item@)
                && final(self).values().len() == old(self).values().len() - 1,
    {
        match self.find(item) {
            Some(i) => {
                proof {
                    lemma_at(self.entries@, i as int);
                    lemma_remove(self.entries@, i as int);
                }
                Some(self.entries.remove(i))
            },
            None => None,
        }
    }
}

proof fn lemma_len_seq<T: Keyed>(s: Seq<T>)
    requires
        keys_unique(s),
    ensures
        as_map(s).dom().len() == s.len(),
        as_map(s).dom().finite(),
    decreases s.len(),
{
    if s.len() == 0 {
        assert(as_map(s).dom() =~= Set::<Seq<ComponentView>>::empty());
    } else {
        let last = (s.len() - 1) as int;
        lemma_remove(s, last);
        assert(s.remove(last) =~= s.drop_last());
        lemma_len_seq(s.drop_last());
        lemma_at(s, last);
        assert(as_map(s).dom() =~= as_map(s.drop_last()).dom().insert(s[last].key()));
    }
}

} // verus!
