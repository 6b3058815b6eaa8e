//! Lookup indices: maps from a categorical key to the postings filed under it.
//!
//! An index is viewed as a `Map` from key to the sequence of postings in its
//! bucket. Buckets are created on first use and only ever grow at the end, so
//! the order inside a bucket is the order in which postings were filed.

use crate::repository::{Job, JobView, Level, Location, Skill};
use vstd::prelude::*;

verus! {

/// A key by which postings are grouped. Two keys denote the same bucket when
/// their views are equal.
pub trait IndexKey: View + Sized {
    /// Whether two keys denote the same bucket.
    fn same_key(&self, other: &Self) -> (same: bool)
        ensures
            same == (self@ == other@),
    ;
}

impl IndexKey for String {
    fn same_key(&self, other: &Self) -> (same: bool) {
        *self == *other
    }
}

impl View for Location {
    type V = Location;

    open spec fn view(&self) -> Location {
        *self
    }
}

impl IndexKey for Location {
    fn same_key(&self, other: &Self) -> (same: bool) {
        *self == *other
    }
}

impl View for Skill {
    type V = Skill;

    open spec fn view(&self) -> Skill {
        *self
    }
}

impl IndexKey for Skill {
    fn same_key(&self, other: &Self) -> (same: bool) {
        *self == *other
    }
}

impl View for Level {
    type V = Level;

    open spec fn view(&self) -> Level {
        *self
    }
}

impl IndexKey for Level {
    fn same_key(&self, other: &Self) -> (same: bool) {
        *self == *other
    }
}

/// The bucket under `key`, or the empty sequence where the index has none.
pub open spec fn bucket<K>(index: Map<K, Seq<JobView>>, key: K) -> Seq<JobView> {
    if index.contains_key(key) {
        index[key]
    } else {
        Seq::empty()
    }
}

/// The index after filing `job` under `key`: the bucket is created if absent,
/// and the posting goes to its end.
pub open spec fn appended<K>(index: Map<K, Seq<JobView>>, key: K, job: JobView) -> Map<
    K,
    Seq<JobView>,
> {
    index.insert(key, bucket(index, key).push(job))
}

/// The number of postings in all buckets of a finite index together.
pub open spec fn total<K>(index: Map<K, Seq<JobView>>) -> nat
    decreases index.dom().len(),
    when index.dom().finite()
    via total_decreases::<K>
{
    if index.dom().len() == 0 {
        0
    } else {
        let key = index.dom().choose();
        index[key].len() + total(index.remove(key))
    }
}

#[via_fn]
proof fn total_decreases<K>(index: Map<K, Seq<JobView>>) {
    if index.dom().len() != 0 {
        let key = index.dom().choose();
        assert(index.dom().contains(key)) by {
            if index.dom() =~= Set::<K>::empty() {
            }
        }
        assert(index.remove(key).dom() =~= index.dom().remove(key));
    }
}

/// The total can be taken bucket by bucket in any order: it is the size of
/// any one bucket plus the total of the rest.
pub proof fn lemma_total_remove<K>(index: Map<K, Seq<JobView>>, key: K)
    requires
        index.dom().finite(),
        index.contains_key(key),
    ensures
        total(index) == index[key].len() + total(index.remove(key)),
    decreases index.dom().len(),
{
    let first = index.dom().choose();
    assert(index.dom().len() != 0) by {
        if index.dom().len() == 0 {
            assert(index.dom() =~= Set::<K>::empty());
        }
    }
    assert(index.dom().contains(first));
    if first != key {
        let rest = index.remove(first);
        assert(rest.dom() =~= index.dom().remove(first));
        lemma_total_remove(rest, key);
        let other = index.remove(key);
        assert(other.dom() =~= index.dom().remove(key));
        lemma_total_remove(other, first);
        assert(rest.remove(key) =~= other.remove(first));
    }
}

/// Replacing or adding one bucket changes the total by the difference in
/// that bucket's size.
pub proof fn lemma_total_insert<K>(index: Map<K, Seq<JobView>>, key: K, jobs: Seq<JobView>)
    requires
        index.dom().finite(),
    ensures
        index.insert(key, jobs).dom().finite(),
        total(index.insert(key, jobs)) + bucket(index, key).len() == total(index) + jobs.len(),
{
    let grown = index.insert(key, jobs);
    assert(grown.dom() =~= index.dom().insert(key));
    lemma_total_remove(grown, key);
    if index.contains_key(key) {
        lemma_total_remove(index, key);
        assert(grown.remove(key) =~= index.remove(key));
    } else {
        assert(grown.remove(key) =~= index);
    }
}

/// One key with the postings filed under it.
#[derive(Debug)]
struct Bucket<K> {
    key: K,
    jobs: Vec<Job>,
}

/// A mapping from keys to non-empty buckets of postings, keys unique.
#[derive(Debug)]
pub struct Index<K: IndexKey> {
    entries: Vec<Bucket<K>>,
}

impl<K: IndexKey> View for Index<K> {
    type V = Map<K::V, Seq<JobView>>;

    closed spec fn view(&self) -> Map<K::V, Seq<JobView>> {
        Map::new(|k: K::V| self.has(k), |k: K::V| self.entries[self.slot(k)].jobs.deep_view())
    }
}

impl<K: IndexKey> Index<K> {
    /// Keys are pairwise distinct and no bucket is empty.
    #[verifier::type_invariant]
    spec fn inv(self) -> bool {
        &&& forall|i: int, j: int|
            0 <= i < j < self.entries.len() ==> self.entries[i].key@ != self.entries[j].key@
        &&& forall|i: int| 0 <= i < self.entries.len() ==> self.entries[i].jobs.len() > 0
    }

    /// Whether some entry carries the key `k`.
    spec fn has(self, k: K::V) -> bool {
        exists|i: int| 0 <= i < self.entries.len() && self.entries[i].key@ == k
    }

    /// The position of the entry that carries the key `k`.
    spec fn slot(self, k: K::V) -> int {
        choose|i: int| 0 <= i < self.entries.len() && self.entries[i].key@ == k
    }

    /// The keys of the entries, in order.
    spec fn key_views(self) -> Seq<K::V> {
        Seq::new(self.entries.len() as nat, |i: int| self.entries[i].key@)
    }

    /// Entry `i` is the one found under its own key.
    proof fn lemma_slot(self, i: int)
        requires
            self.inv(),
            0 <= i < self.entries.len(),
        ensures
            self.has(self.entries[i].key@),
            self.slot(self.entries[i].key@) == i,
            self@.contains_key(self.entries[i].key@),
            self@[self.entries[i].key@] == self.entries[i].jobs.deep_view(),
    {
        let k = self.entries[i].key@;
        let j = self.slot(k);
        assert(0 <= j < self.entries.len() && self.entries[j].key@ == k);
        if j < i {
            assert(self.entries[j].key@ != self.entries[i].key@);
        } else if i < j {
            assert(self.entries[i].key@ != self.entries[j].key@);
        }
    }

    /// The domain of the view is the set of entry keys, one element per entry.
    proof fn lemma_domain(self)
        requires
            self.inv(),
        ensures
            self@.dom() == self.key_views().to_set(),
            self@.dom().finite(),
            self@.dom().len() == self.entries.len(),
    {
        let keys = self.key_views();
        assert forall|k: K::V| self@.dom().contains(k) <==> keys.to_set().contains(k) by {
            if self@.dom().contains(k) {
                let i = self.slot(k);
                assert(keys[i] == k);
            }
            if keys.to_set().contains(k) {
                let i = choose|i: int| 0 <= i < keys.len() && keys[i] == k;
                assert(self.entries[i].key@ == k);
            }
        }
        assert(self@.dom() =~= keys.to_set());
        assert(keys.no_duplicates()) by {
            assert forall|i: int, j: int| 0 <= i < keys.len() && 0 <= j < keys.len() && i != j
                implies keys[i] != keys[j] by {
                if i < j {
                    assert(self.entries[i].key@ != self.entries[j].key@);
                } else {
                    assert(self.entries[j].key@ != self.entries[i].key@);
                }
            }
        }
        keys.unique_seq_to_set();
        vstd::seq_lib::seq_to_set_is_finite(keys);
    }

    /// An index with no keys.
    pub fn new() -> (index: Self)
        ensures
            index@ == Map::<K::V, Seq<JobView>>::empty(),
    {
        let index = Index { entries: Vec::new() };
        assert(index@ =~= Map::<K::V, Seq<JobView>>::empty());
        index
    }

    /// The number of keys.
    pub fn len(&self) -> (n: usize)
        ensures
            self@.dom().finite(),
            n == self@.dom().len(),
    {
        proof {
            use_type_invariant(self);
            self.lemma_domain();
        }
        self.entries.len()
    }

    /// Whether the index has no keys.
    pub fn is_empty(&self) -> (empty: bool)
        ensures
            empty == (self@ == Map::<K::V, Seq<JobView>>::empty()),
    {
        proof {
            use_type_invariant(self);
            self.lemma_domain();
            if self.entries.len() == 0 {
                assert(self@ =~= Map::<K::V, Seq<JobView>>::empty());
            } else {
                self.lemma_slot(0);
            }
        }
        self.entries.len() == 0
    }

    /// The position of the entry under `key`, if there is one.
    fn find(&self, key: &K) -> (at: Option<usize>)
        ensures
            match at {
                Some(i) => i < self.entries.len() && self.entries[i as int].key@ == key@,
                None => !self.has(key@),
            },
    {
        let mut i: usize = 0;
        while i < self.entries.len()
            invariant
                i <= self.entries.len(),
                forall|j: int| 0 <= j < i ==> self.entries[j].key@ != key@,
            decreases self.entries.len() - i,
        {
            if self.entries[i].key.same_key(key) {
                return Some(i);
            }
            i += 1;
        }
        None
    }

    /// Whether a bucket exists under `key`.
    pub fn contains_key(&self, key: &K) -> (found: bool)
        ensures
            found == self@.contains_key(key@),
    {
        match self.find(key) {
            Some(i) => {
                proof {
                    use_type_invariant(self);
                    self.lemma_slot(i as int);
                }
                true
            },
            None => false,
        }
    }

    /// The postings filed under `key`, in filing order; `None` where no
    /// posting was ever filed under it.
    pub fn get(&self, key: &K) -> (found: Option<&Vec<Job>>)
        ensures
            match found {
                Some(jobs) => self@.contains_key(key@) && jobs.deep_view() == self@[key@],
                None => !self@.contains_key(key@),
            },
    {
        match self.find(key) {
            Some(i) => {
                proof {
                    use_type_invariant(self);
                    self.lemma_slot(i as int);
                }
                Some(&self.entries[i].jobs)
            },
            None => None,
        }
    }

    /// The number of postings filed under `key`; zero where there is no such
    /// bucket.
    pub fn count(&self, key: &K) -> (n: usize)
        ensures
            n == bucket(self@, key@).len(),
    {
        match self.get(key) {
            Some(jobs) => {
                assert(jobs.deep_view().len() == jobs.len());
                jobs.len()
            },
            None => 0,
        }
    }

    /// A copy of the postings filed under `key`, in filing order; empty where
    /// no posting was ever filed under it.
    pub fn lookup(&self, key: &K) -> (jobs: Vec<Job>)
        ensures
            jobs.deep_view() == bucket(self@, key@),
    {
        match self.get(key) {
            Some(found) => {
                let jobs = found.clone();
                assert(jobs.deep_view() =~= found.deep_view());
                jobs
            },
            None => {
                let jobs: Vec<Job> = Vec::new();
                assert(jobs.deep_view() =~= Seq::<JobView>::empty());
                jobs
            },
        }
    }

    /// Files `job` under `key`, creating the bucket on first use.
    pub fn append(&mut self, key: K, job: Job)
        ensures
            final(self)@ == appended(old(self)@, key@, job@),
    {
        proof {
            use_type_invariant(&*self);
        }
        let ghost before = *self;
        let ghost k = key@;
        let found = self.find(&key);
        let mut entries: Vec<Bucket<K>> = Vec::new();
        core::mem::swap(&mut self.entries, &mut entries);
        match found {
            Some(i) => {
                let mut entry = entries.remove(i);
                let ghost grown = entry.jobs.deep_view().push(job@);
                entry.jobs.push(job);
                assert(entry.jobs.deep_view() =~= grown);
                entries.insert(i, entry);
                assert forall|a: int, b: int| 0 <= a < b < entries.len() implies (
                #[trigger] entries[a]).key@ != (#[trigger] entries[b]).key@ by {
                    assert(before.entries[a].key@ != before.entries[b].key@);
                }
                core::mem::swap(&mut self.entries, &mut entries);
                proof {
                    assert(self.entries@.len() == before.entries@.len());
                    assert forall|j: int| 0 <= j < self.entries.len() implies (
                    #[trigger] self.entries[j]).key@ == before.entries[j].key@ by {}
                    assert(self.inv());
                    before.lemma_slot(i as int);
                    self.lemma_slot(i as int);
                    assert forall|q: K::V| #[trigger] self.has(q) == before.has(q) by {
                        if self.has(q) {
                            let j = self.slot(q);
                            assert(before.entries[j].key@ == q);
                        }
                        if before.has(q) {
                            let j = before.slot(q);
                            assert(self.entries[j].key@ == q);
                        }
                    }
                    let target = appended(before@, k, job@);
                    assert forall|q: K::V| self@.contains_key(q) implies #[trigger] self@[q]
                        == target[q] by {
                        let j = self.slot(q);
                        self.lemma_slot(j);
                        before.lemma_slot(j);
                    }
                    assert(self@ =~= target);
                }
            },
            None => {
                let mut jobs: Vec<Job> = Vec::new();
                jobs.push(job);
                assert(jobs.deep_view() =~= seq![job@]);
                entries.push(Bucket { key, jobs });
                let ghost n = before.entries.len() as int;
                assert forall|a: int, b: int| 0 <= a < b < entries.len() implies (
                #[trigger] entries[a]).key@ != (#[trigger] entries[b]).key@ by {
                    if b < n {
                        assert(before.entries[a].key@ != before.entries[b].key@);
                    } else {
                        assert(before.entries[a].key@ == entries[a].key@);
                        assert(!before.has(k));
                    }
                }
                core::mem::swap(&mut self.entries, &mut entries);
                proof {
                    assert forall|j: int| 0 <= j < n implies (#[trigger] self.entries[j])
                        == before.entries[j] by {}
                    self.lemma_slot(n);
                    assert forall|q: K::V| #[trigger] self.has(q) == (before.has(q) || q == k) by {
                        if self.has(q) {
                            let j = self.slot(q);
                            if j < n {
                                assert(before.entries[j].key@ == q);
                            }
                        }
                        if before.has(q) {
                            let j = before.slot(q);
                            assert(self.entries[j].key@ == q);
                        }
                    }
                    let target = appended(before@, k, job@);
                    assert forall|q: K::V| self@.contains_key(q) implies #[trigger] self@[q]
                        == target[q] by {
                        let j = self.slot(q);
                        self.lemma_slot(j);
                        if j < n {
                            before.lemma_slot(j);
                        }
                    }
                    assert(self@ =~= target);
                }
            },
        }
    }
}

} // verus!
