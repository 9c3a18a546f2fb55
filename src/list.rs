use vstd::prelude::*;

verus! {

/// One entry of a [`LinkedList`].
pub struct Node<V> {
    pub key: u64,
    pub value: V,
    pub next: Option<Box<Node<V>>>,
}

/// The entries of a chain of nodes, front to back.
pub open spec fn seq_of<V>(n: Option<Box<Node<V>>>) -> Seq<(u64, V)>
    decreases n,
{
    match n {
        None => Seq::empty(),
        Some(b) => seq![(b.key, b.value)] + seq_of(b.next),
    }
}

/// The association that a chain of nodes holds.
pub open spec fn map_of<V>(n: Option<Box<Node<V>>>) -> Map<u64, V>
    decreases n,
{
    match n {
        None => Map::empty(),
        Some(b) => map_of(b.next).insert(b.key, b.value),
    }
}

/// Every key in the chain is greater than `lo`.
pub open spec fn keys_above<V>(n: Option<Box<Node<V>>>, lo: u64) -> bool
    decreases n,
{
    match n {
        None => true,
        Some(b) => b.key > lo && keys_above(b.next, lo),
    }
}

/// The keys of the chain are strictly ascending.
pub open spec fn sorted<V>(n: Option<Box<Node<V>>>) -> bool
    decreases n,
{
    match n {
        None => true,
        Some(b) => keys_above(b.next, b.key) && sorted(b.next),
    }
}

proof fn lemma_keys_above_weaken<V>(n: Option<Box<Node<V>>>, lo: u64, lower: u64)
    requires
        keys_above(n, lo),
        lower <= lo,
    ensures
        keys_above(n, lower),
    decreases n,
{
    if let Some(b) = n {
        lemma_keys_above_weaken(b.next, lo, lower);
    }
}

proof fn lemma_keys_above_absent<V>(n: Option<Box<Node<V>>>, lo: u64, k: u64)
    requires
        keys_above(n, lo),
        k <= lo,
    ensures
        !map_of(n).contains_key(k),
    decreases n,
{
    if let Some(b) = n {
        lemma_keys_above_absent(b.next, lo, k);
    }
}

fn insert_node<V>(n: Option<Box<Node<V>>>, key: u64, value: V) -> (r: Option<Box<Node<V>>>)
    requires
        sorted(n),
    ensures
        sorted(r),
        map_of(r) == map_of(n).insert(key, value),
        forall|lo: u64| lo < key && keys_above(n, lo) ==> keys_above(r, lo),
    decreases n,
{
    let ghost n0 = n;
    match n {
        None => Some(Box::new(Node { key, value, next: None })),
        Some(b) => {
            let Node { key: k, value: v, next } = *b;
            if k < key {
                let rest = insert_node(next, key, value);
                assert(map_of(rest).insert(k, v) =~= map_of(next).insert(k, v).insert(key, value));
                let r = Some(Box::new(Node { key: k, value: v, next: rest }));
                assert forall|lo: u64| lo < key && keys_above(n0, lo) implies keys_above(r, lo) by {
                    assert(keys_above(next, lo));
                    assert(keys_above(rest, lo));
                }
                r
            } else if k == key {
                assert(map_of(next).insert(key, value) =~= map_of(next).insert(k, v).insert(key, value));
                Some(Box::new(Node { key, value, next }))
            } else {
                proof {
                    lemma_keys_above_weaken(next, k, key);
                }
                let r = Some(Box::new(Node { key, value, next: Some(Box::new(Node { key: k, value: v, next })) }));
                assert forall|lo: u64| lo < key && keys_above(n0, lo) implies keys_above(r, lo) by {
                    assert(keys_above(next, lo));
                }
                r
            }
        },
    }
}

fn remove_node<V>(n: Option<Box<Node<V>>>, key: u64) -> (r: Option<Box<Node<V>>>)
    requires
        sorted(n),
    ensures
        sorted(r),
        map_of(r) == map_of(n).remove(key),
        forall|lo: u64| keys_above(n, lo) ==> keys_above(r, lo),
    decreases n,
{
    let ghost n0 = n;
    match n {
        None => {
            assert(map_of(n).remove(key) =~= map_of(n));
            None
        },
        Some(b) => {
            if b.key < key {
                let Node { key: k, value: v, next } = *b;
                let rest = remove_node(next, key);
                assert(map_of(rest).insert(k, v) =~= map_of(next).insert(k, v).remove(key));
                let r = Some(Box::new(Node { key: k, value: v, next: rest }));
                assert forall|lo: u64| keys_above(n0, lo) implies keys_above(r, lo) by {
                    assert(keys_above(next, lo));
                    assert(keys_above(rest, lo));
                }
                r
            } else if b.key == key {
                let Node { key: k, value: v, next } = *b;
                proof {
                    lemma_keys_above_absent(next, k, key);
                }
                assert(map_of(next) =~= map_of(next).insert(k, v).remove(key));
                next
            } else {
                proof {
                    lemma_keys_above_weaken(b.next, b.key, key);
                    lemma_keys_above_absent(Some(b), key, key);
                }
                assert(map_of(Some(b)).remove(key) =~= map_of(Some(b)));
                Some(b)
            }
        },
    }
}

fn find_node<V>(n: &Option<Box<Node<V>>>, key: u64) -> (r: Option<&V>)
    requires
        sorted(*n),
    ensures
        r.is_some() == map_of(*n).contains_key(key),
        r.is_some() ==> *r.unwrap() == map_of(*n)[key],
    decreases *n,
{
    match n {
        None => None,
        Some(b) => {
            if b.key < key {
                find_node(&b.next, key)
            } else if b.key == key {
                Some(&b.value)
            } else {
                proof {
                    lemma_keys_above_weaken(b.next, b.key, key);
                    lemma_keys_above_absent(*n, key, key);
                }
                None
            }
        },
    }
}

proof fn lemma_seq_of_sorted<V>(n: Option<Box<Node<V>>>, lo: u64)
    requires
        sorted(n),
    ensures
        forall|i: int, j: int|
            0 <= i < j < seq_of(n).len() ==> (#[trigger] seq_of(n)[i]).0 < (#[trigger] seq_of(n)[j]).0,
        forall|i: int|
            0 <= i < seq_of(n).len() ==> map_of(n).contains_key((#[trigger] seq_of(n)[i]).0)
                && map_of(n)[seq_of(n)[i].0] == seq_of(n)[i].1,
        forall|k: u64|
            #[trigger] map_of(n).contains_key(k) ==> exists|i: int|
                0 <= i < seq_of(n).len() && (#[trigger] seq_of(n)[i]).0 == k,
        keys_above(n, lo) ==> forall|i: int| 0 <= i < seq_of(n).len() ==> (#[trigger] seq_of(n)[i]).0 > lo,
    decreases n,
{
    if let Some(b) = n {
        let t = seq_of(b.next);
        lemma_seq_of_sorted(b.next, b.key);
        lemma_seq_of_sorted(b.next, lo);
        let s = seq_of(n);
        assert(s == seq![(b.key, b.value)] + t);
        assert forall|i: int| 0 < i < s.len() implies #[trigger] s[i] == t[i - 1] by {}
        assert forall|k: u64| #[trigger] map_of(n).contains_key(k) implies exists|i: int|
            0 <= i < s.len() && (#[trigger] s[i]).0 == k by {
            if k == b.key {
                assert(s[0].0 == k);
            } else {
                assert(map_of(b.next).contains_key(k));
                let j = choose|j: int| 0 <= j < t.len() && (#[trigger] t[j]).0 == k;
                assert(s[j + 1].0 == k);
            }
        }
    }
}

/// An association list from `u64` keys to values, kept strictly ascending by key.
pub struct LinkedList<V> {
    head: Option<Box<Node<V>>>,
}

impl<V> View for LinkedList<V> {
    type V = Map<u64, V>;

    closed spec fn view(&self) -> Map<u64, V> {
        map_of(self.head)
    }
}

impl<V> LinkedList<V> {
    /// Keys strictly ascending from the front, so that each key appears once.
    pub closed spec fn wf(&self) -> bool {
        sorted(self.head)
    }

    /// The entries, front to back.
    pub closed spec fn entries(&self) -> Seq<(u64, V)> {
        seq_of(self.head)
    }

    /// Every key held is greater than `lo`.
    pub closed spec fn keys_above(&self, lo: u64) -> bool {
        keys_above(self.head, lo)
    }

    /// An empty list.
    pub fn new() -> (r: Self)
        ensures
            r.wf(),
            r@ == Map::<u64, V>::empty(),
    {
        LinkedList { head: None }
    }

    /// Binds `key` to `value`, replacing the value it had.
    pub fn insert(&mut self, key: u64, value: V)
        requires
            old(self).wf(),
        ensures
            final(self).wf(),
            final(self)@ == old(self)@.insert(key, value),
            forall|lo: u64| lo < key && old(self).keys_above(lo) ==> final(self).keys_above(lo),
    {
        let head = self.head.take();
        self.head = insert_node(head, key, value);
    }

    /// The value bound to `key`, if any.
    pub fn find(&self, key: &u64) -> (r: Option<&V>)
        requires
            self.wf(),
        ensures
            r.is_some() == self@.contains_key(*key),
            r.is_some() ==> *r.unwrap() == self@[*key],
    {
        find_node(&self.head, *key)
    }

    /// Unbinds `key`; nothing changes where it is not bound.
    pub fn remove(&mut self, key: &u64)
        requires
            old(self).wf(),
        ensures
            final(self).wf(),
            final(self)@ == old(self)@.remove(*key),
            forall|lo: u64| old(self).keys_above(lo) ==> final(self).keys_above(lo),
    {
        let head = self.head.take();
        self.head = remove_node(head, *key);
    }

    /// Whether no key is bound.
    pub fn is_empty(&self) -> (r: bool)
        ensures
            r == (self@ == Map::<u64, V>::empty()),
    {
        match &self.head {
            None => true,
            Some(b) => {
                assert(self@.contains_key(b.key));
                false
            },
        }
    }
}

impl<V: Copy> LinkedList<V> {
    /// The entries as `(key, value)` pairs: each binding once, keys ascending.
    pub fn to_vec(&self) -> (r: Vec<(u64, V)>)
        requires
            self.wf(),
        ensures
            r@ == self.entries(),
            forall|i: int, j: int| 0 <= i < j < r@.len() ==> (#[trigger] r@[i]).0 < (#[trigger] r@[j]).0,
            forall|i: int|
                0 <= i < r@.len() ==> self@.contains_key((#[trigger] r@[i]).0) && self@[r@[i].0]
                    == r@[i].1,
            forall|k: u64|
                #[trigger] self@.contains_key(k) ==> exists|i: int| 0 <= i < r@.len() && (#[trigger] r@[i]).0 == k,
    {
        proof {
            lemma_seq_of_sorted(self.head, 0);
        }
        let mut result: Vec<(u64, V)> = Vec::new();
        let mut current = &self.head;
        loop
            invariant
                result@ + seq_of(*current) == seq_of(self.head),
            ensures
                result@ == seq_of(self.head),
            decreases seq_of(*current).len(),
        {
            match current {
                None => {
                    assert(result@ + seq_of(*current) =~= result@);
                    break;
                },
                Some(node) => {
                    result.push((node.key, node.value));
                    assert(result@ + seq_of(node.next) =~= seq_of(self.head));
                    current = &node.next;
                },
            }
        }
        result
    }
}

/// The semantics of a bucket as its operations state them: after
/// `insert(k, v1)` a lookup of `k` gives `v1`; after `insert(k, v1)` and
/// then `insert(k, v2)` it gives `v2`; after `remove(k)` it gives nothing;
/// and no operation on `k` touches another key.
pub proof fn lemma_bucket_semantics<V>(m: Map<u64, V>, k: u64, other: u64, v1: V, v2: V)
    requires
        other != k,
    ensures
        m.insert(k, v1).contains_key(k) && m.insert(k, v1)[k] == v1,
        m.insert(k, v1).insert(k, v2).contains_key(k) && m.insert(k, v1).insert(k, v2)[k] == v2,
        !m.remove(k).contains_key(k),
        m.insert(k, v1).contains_key(other) == m.contains_key(other),
        m.contains_key(other) ==> m.insert(k, v1)[other] == m[other],
        m.remove(k).contains_key(other) == m.contains_key(other),
        m.contains_key(other) ==> m.remove(k)[other] == m[other],
{
}

} // verus!
