//! A small map from peer ids to values that keeps one entry per id, in order
//! of first insertion.
use vstd::prelude::*;

verus! {

/// No id appears twice.
pub open spec fn keys_unique<V>(s: Seq<(usize, V)>) -> bool {
    forall|i: int, j: int| 0 <= i < j < s.len() ==> s[i].0 != s[j].0
}

/// Some entry has id `k`.
pub open spec fn has_key<V>(s: Seq<(usize, V)>, k: usize) -> bool {
    exists|i: int| 0 <= i < s.len() && #[trigger] s[i].0 == k
}

/// `s` with the entry for `k` set to `v`: replaced in place where `k` is
/// present, appended where it is not.
pub open spec fn assoc_insert<V>(s: Seq<(usize, V)>, k: usize, v: V) -> Seq<(usize, V)> {
    if has_key(s, k) {
        s.update(choose|i: int| 0 <= i < s.len() && #[trigger] s[i].0 == k, (k, v))
    } else {
        s.push((k, v))
    }
}

/// Inserting `k` keeps the ids unique, and only the entry for `k` changes.
pub proof fn lemma_insert_unique<V>(s: Seq<(usize, V)>, k: usize, v: V)
    requires
        keys_unique(s),
    ensures
        keys_unique(assoc_insert(s, k, v)),
        has_key(assoc_insert(s, k, v), k),
        assoc_insert(s, k, v).len() == s.len() + if has_key(s, k) { 0int } else { 1int },
{
    let r = assoc_insert(s, k, v);
    if has_key(s, k) {
        let i = choose|i: int| 0 <= i < s.len() && #[trigger] s[i].0 == k;
        assert(r[i].0 == k);
    } else {
        assert(r[s.len() as int].0 == k);
    }
}

/// Registering an id a second time overwrites its entry and adds none: the
/// result is that of registering only the second value.
pub proof fn lemma_reinsert_overwrites<V>(s: Seq<(usize, V)>, k: usize, v1: V, v2: V)
    requires
        keys_unique(s),
    ensures
        assoc_insert(assoc_insert(s, k, v1), k, v2) == assoc_insert(s, k, v2),
        assoc_insert(assoc_insert(s, k, v1), k, v2).len() == assoc_insert(s, k, v1).len(),
{
    let s1 = assoc_insert(s, k, v1);
    lemma_insert_unique(s, k, v1);
    let j = choose|i: int| 0 <= i < s1.len() && #[trigger] s1[i].0 == k;
    if has_key(s, k) {
        let i = choose|i: int| 0 <= i < s.len() && #[trigger] s[i].0 == k;
        assert(s1[i].0 == k);
        assert(i == j);
        assert(assoc_insert(s1, k, v2) =~= assoc_insert(s, k, v2));
    } else {
        assert(s1[s.len() as int].0 == k);
        assert(j == s.len());
        assert(assoc_insert(s1, k, v2) =~= assoc_insert(s, k, v2));
    }
}

/// Entries keyed by peer id, one per id.
pub struct Registry<V> {
    entries: Vec<(usize, V)>,
}

impl<V> View for Registry<V> {
    type V = Seq<(usize, V)>;

    closed spec fn view(&self) -> Seq<(usize, V)> {
        self.entries@
    }
}

impl<V> Registry<V> {
    /// The entries' ids are unique.
    pub open spec fn wf(&self) -> bool {
        keys_unique(self@)
    }

    /// An empty registry.
    pub fn new() -> (r: Registry<V>)
        ensures
            r.wf(),
            r@ == Seq::<(usize, V)>::empty(),
    {
        Registry { entries: Vec::new() }
    }

    /// Sets the entry for `k` to `v`, replacing any earlier one.
    pub fn insert(&mut self, k: usize, v: V)
        requires
            old(self).wf(),
        ensures
            final(self).wf(),
            final(self)@ == assoc_insert(old(self)@, k, v),
    {
        proof {
            lemma_insert_unique(self@, k, v);
        }
        let mut i: usize = 0;
        while i < self.entries.len()
            invariant
                self.entries@ == old(self)@,
                keys_unique(self.entries@),
                i <= self.entries.len(),
                forall|j: int| 0 <= j < i ==> self.entries@[j].0 != k,
            decreases self.entries.len() - i,
        {
            if self.entries[i].0 == k {
                proof {
                    let c = choose|j: int| 0 <= j < self.entries@.len() && #[trigger] self.entries@[j].0 == k;
                    assert(self.entries@[i as int].0 == k);
                    assert(c == i);
                }
                self.entries.set(i, (k, v));
                return;
            }
            i = i + 1;
        }
        self.entries.push((k, v));
    }

    /// The number of entries.
    pub fn len(&self) -> (r: usize)
        ensures
            r == self@.len(),
    {
        self.entries.len()
    }

    /// Removes every entry.
    pub fn clear(&mut self)
        ensures
            final(self).wf(),
            final(self)@ == Seq::<(usize, V)>::empty(),
    {
        self.entries.clear();
    }

    /// The entries, in order of first insertion.
    pub fn entries(&self) -> (r: &Vec<(usize, V)>)
        ensures
            r@ == self@,
    {
        &self.entries
    }
}

} // verus!
