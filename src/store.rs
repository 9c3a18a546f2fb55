use vstd::prelude::*;
use vstd::rwlock::{RwLock, RwLockPredicate};
use crate::list::LinkedList;

verus! {

/// A hash onto `usize`, from which a key's bucket is chosen.
pub trait SimpleHash {
    spec fn spec_hash(&self) -> usize;

    fn hash(&self) -> (r: usize)
        ensures
            r == self.spec_hash(),
    ;
}

impl SimpleHash for u64 {
    /// The identity, cut to the width of `usize`.
    open spec fn spec_hash(&self) -> usize {
        *self as usize
    }

    fn hash(&self) -> (r: usize) {
        *self as usize
    }
}

/// The bucket that `key` lives in when there are `count` buckets.
pub open spec fn bucket_of(key: u64, count: usize) -> int
    recommends
        count > 0,
{
    key.spec_hash() as int % count as int
}

/// What the lock of bucket `index` out of `count` lets its list hold: a
/// well-formed list whose keys all belong to that bucket.
pub struct BucketPred {
    pub index: usize,
    pub count: usize,
}

impl<V> RwLockPredicate<LinkedList<V>> for BucketPred {
    open spec fn inv(self, l: LinkedList<V>) -> bool {
        &&& l.wf()
        &&& forall|k: u64| #[trigger] l@.contains_key(k) ==> bucket_of(k, self.count) == self.index
    }
}

/// The store: a fixed number of buckets, each a sorted association list
/// behind a reader-writer lock of its own.
pub struct ConcurrentMap<V> {
    buckets: Vec<RwLock<LinkedList<V>, BucketPred>>,
}

impl<V: Copy> ConcurrentMap<V> {
    /// At least one bucket, and the lock of bucket `i` admits exactly the
    /// keys that belong to bucket `i`.
    pub closed spec fn wf(&self) -> bool {
        &&& self.buckets@.len() > 0
        &&& self.buckets@.len() <= usize::MAX
        &&& forall|i: int|
            0 <= i < self.buckets@.len() ==> (#[trigger] self.buckets@[i]).pred() == (BucketPred {
                index: i as usize,
                count: self.buckets@.len() as usize,
            })
    }

    /// The number of buckets.
    pub closed spec fn bucket_count(&self) -> usize {
        self.buckets@.len() as usize
    }

    /// The values that the list of the bucket of `key` may hold: any list
    /// whose lock admits it.
    pub closed spec fn admits(&self, key: u64, l: LinkedList<V>) -> bool {
        self.buckets@[bucket_of(key, self.bucket_count())].inv(l)
    }

    /// A store of `buckets` empty buckets.
    pub fn new(buckets: usize) -> (r: Self)
        requires
            buckets > 0,
        ensures
            r.wf(),
            r.bucket_count() == buckets,
    {
        let mut v: Vec<RwLock<LinkedList<V>, BucketPred>> = Vec::new();
        let mut i: usize = 0;
        while i < buckets
            invariant
                i <= buckets,
                v@.len() == i,
                forall|j: int|
                    0 <= j < i ==> (#[trigger] v@[j]).pred() == (BucketPred {
                        index: j as usize,
                        count: buckets,
                    }),
            decreases buckets - i,
        {
            let pred = Ghost(BucketPred { index: i, count: buckets });
            v.push(RwLock::new(LinkedList::new(), pred));
            i = i + 1;
        }
        ConcurrentMap { buckets: v }
    }

    /// The index of the bucket that `key` lives in.
    fn get_bucket(&self, key: &u64) -> (r: usize)
        requires
            self.wf(),
        ensures
            r == bucket_of(*key, self.bucket_count()),
            r < self.bucket_count(),
    {
        let len = self.buckets.len();
        key.hash() % len
    }

    /// Binds `key` to `value` in its bucket, under that bucket's write lock.
    pub fn insert(&self, key: u64, value: V)
        requires
            self.wf(),
    {
        let i = self.get_bucket(&key);
        let (mut list, handle) = self.buckets[i].acquire_write();
        list.insert(key, value);
        handle.release_write(list);
    }

    /// Unbinds `key` in its bucket, under that bucket's write lock.
    pub fn remove(&self, key: &u64)
        requires
            self.wf(),
    {
        let i = self.get_bucket(key);
        let (mut list, handle) = self.buckets[i].acquire_write();
        list.remove(key);
        handle.release_write(list);
    }

    /// The value of `key`, read under its bucket's read lock: the lookup of
    /// `key` in a list that the bucket's lock admits.
    pub fn get(&self, key: &u64) -> (r: Option<V>)
        requires
            self.wf(),
        ensures
            exists|l: LinkedList<V>|
                #[trigger] self.admits(*key, l) && r == (if l@.contains_key(*key) {
                    Some(l@[*key])
                } else {
                    None
                }),
    {
        let i = self.get_bucket(key);
        let handle = self.buckets[i].acquire_read();
        let list = handle.borrow();
        let r = match list.find(key) {
            Some(v) => Some(*v),
            None => None,
        };
        assert(self.admits(*key, *list));
        handle.release_read();
        r
    }
}

} // verus!
